use vstd::prelude::*;

use crate::board_setup::fen::{
    byte_len, low_byte, castling_from, castling_text, empty_run, ep_text, fen_letter, fen_text, no_castles, piece_of_char,
    placement_from, placement_start, placement_step, rank_text_from, ranks_text_down_to,
    spec_parse_fen, square_of_word, square_text, Placement,
};
use crate::board_setup::models::{AvailableCastles, BoardError, BoardModel};
use crate::move_generator::models::{ChessPiece, Color, PieceType, Square};
use crate::move_generator::laws::{
    king_of, kings_recorded, lemma_count_flat, lemma_count_update, mating_count, sound_position,
};
use crate::move_register::models::{ChessMove, MoveType};
use crate::text::{dec, digit_char, digits_value, is_digit, is_ws, parse_unsigned, split_state, unsigned_digits, words};

verus! {

/// Reading the concatenation of two texts is reading the first, then the second from where
/// the first left off.
proof fn lemma_placement_append(st: Placement, a: Seq<char>, c: Seq<char>)
    ensures
        placement_from(st, a + c) == match placement_from(st, a) {
            None => None,
            Some(Err(e)) => Some(Err(e)),
            Some(Ok(s2)) => placement_from(s2, c),
        },
    decreases a.len(),
{
    if a.len() == 0 {
        assert(a + c =~= c);
    } else {
        assert((a + c)[0] == a[0]);
        assert((a + c).drop_first() =~= a.drop_first() + c);
        match placement_step(st, a[0]) {
            None => {},
            Some(Err(_)) => {},
            Some(Ok(s2)) => {
                lemma_placement_append(s2, a.drop_first(), c);
            },
        }
    }
}

/// Whether every piece records the square it stands on as its position.
pub open spec fn well_placed(b: BoardModel) -> bool {
    &&& b.pieces.len() == 64
    &&& forall|i: int|
        0 <= i < 64 ==> (#[trigger] b.pieces[i] matches Some(p) ==> p.position == Square(
            (i % 8) as i8,
            (i / 8) as i8,
        ))
}

/// Reading the squares of rank `r` from file `f` on, as the placement reader does for the
/// text the board writes.
pub open spec fn fill_rank(s: Placement, b: BoardModel, r: int, f: int) -> Placement
    decreases 8 - f,
{
    if f >= 8 || f < 0 {
        s
    } else {
        match b.piece(Square(f as i8, r as i8)) {
            Some(p) => match placement_step(Placement { file: f, ..s }, fen_letter(p)) {
                Some(Ok(s2)) => fill_rank(s2, b, r, f + 1),
                _ => s,
            },
            None => fill_rank(Placement { file: f + 1, ..s }, b, r, f + 1),
        }
    }
}

proof fn lemma_letter_piece(p: ChessPiece)
    ensures
        piece_of_char(fen_letter(p)) == Some((p.piece_type, p.color)),
        !('1' <= fen_letter(p) <= '8'),
        fen_letter(p) != '/',
{
}

proof fn lemma_dec_small(k: int)
    requires
        1 <= k <= 9,
    ensures
        dec(k as nat) == seq![digit_char(k)],
{
}

/// Reading the text the board writes for a rank, from file `c` on after `k` empty squares
/// not yet written, fills in the squares from `c` on.
proof fn lemma_rank_read(st: Placement, b: BoardModel, r: int, c: int, k: int)
    requires
        0 <= r <= 7,
        0 <= k <= c <= 8,
        st.rank == r,
        st.file == c - k,
    ensures
        placement_from(st, rank_text_from(b, r, c, k)) == Some(
            Ok::<Placement, BoardError>(fill_rank(Placement { file: c, ..st }, b, r, c)),
        ),
        fill_rank(Placement { file: c, ..st }, b, r, c).rank == r,
        fill_rank(Placement { file: c, ..st }, b, r, c).file == 8,
    decreases 8 - c,
{
    let run = empty_run(k);
    if k != 0 {
        lemma_dec_small(k);
        assert(run == seq![digit_char(k)]);
        assert(run.drop_first() =~= Seq::<char>::empty());
        assert(digit_char(k) as int == k + 48);
        assert(run[0] == digit_char(k));
        assert(placement_step(st, run[0]) == Some(Ok::<Placement, BoardError>(Placement { file: c, ..st })));
        assert(placement_from(Placement { file: c, ..st }, run.drop_first()) == Some(Ok::<Placement, BoardError>(Placement { file: c, ..st })));
        assert(placement_from(st, run) == Some(Ok::<Placement, BoardError>(Placement { file: c, ..st })));
    } else {
        assert(run =~= Seq::<char>::empty());
        assert(Placement { file: c, ..st } == st);
    }
    if c >= 8 {
    } else {
        match b.piece(Square(c as i8, r as i8)) {
            Some(p) => {
                let s1 = Placement { file: c, ..st };
                lemma_letter_piece(p);
                let s2 = placement_step(s1, fen_letter(p))->0->Ok_0;
                lemma_rank_read(s2, b, r, c + 1, 0);
                lemma_placement_append(st, run, seq![fen_letter(p)] + rank_text_from(b, r, c + 1, 0));
                assert(run + seq![fen_letter(p)] + rank_text_from(b, r, c + 1, 0) =~= run + (seq![fen_letter(p)] + rank_text_from(b, r, c + 1, 0)));
                let t = seq![fen_letter(p)] + rank_text_from(b, r, c + 1, 0);
                assert(t[0] == fen_letter(p));
                assert(t.drop_first() =~= rank_text_from(b, r, c + 1, 0));
                assert(Placement { file: c + 1, ..s2 } == s2);
            },
            None => {
                lemma_rank_read(st, b, r, c + 1, k + 1);
                assert(Placement { file: c + 1, ..Placement { file: c, ..st } } == Placement { file: c + 1, ..st });
            },
        }
    }
}

/// The state of the placement reader after the ranks from the eighth down to rank `r` of
/// the text the board writes (and the `/` after each but the first rank).
pub open spec fn ranks_read(b: BoardModel, r: int) -> Placement
    decreases 8 - r,
{
    if r > 7 {
        placement_start()
    } else {
        let prev = ranks_read(b, r + 1);
        let f = fill_rank(Placement { file: 0, ..prev }, b, r, 0);
        if r != 0 {
            Placement { rank: r - 1, file: 0, ..f }
        } else {
            f
        }
    }
}

proof fn lemma_ranks_read(b: BoardModel, r: int)
    requires
        0 <= r <= 8,
    ensures
        placement_from(placement_start(), ranks_text_down_to(b, r)) == Some(
            Ok::<Placement, BoardError>(ranks_read(b, r)),
        ),
        r >= 1 ==> ranks_read(b, r).rank == r - 1 && ranks_read(b, r).file == 0,
    decreases 8 - r,
{
    if r > 7 {
        assert(ranks_text_down_to(b, r) =~= Seq::<char>::empty());
    } else {
        lemma_ranks_read(b, r + 1);
        let prev = ranks_read(b, r + 1);
        assert(Placement { file: 0, ..prev } == prev);
        lemma_rank_read(prev, b, r, 0, 0);
        let f = fill_rank(Placement { file: 0, ..prev }, b, r, 0);
        let sep: Seq<char> = if r != 0 { seq!['/'] } else { Seq::empty() };
        let a = ranks_text_down_to(b, r + 1);
        let t = rank_text_from(b, r, 0, 0);
        assert(ranks_text_down_to(b, r) == a + t + sep);
        lemma_placement_append(placement_start(), a + t, sep);
        lemma_placement_append(placement_start(), a, t);
        if r != 0 {
            assert(sep.drop_first() =~= Seq::<char>::empty());
            assert(placement_from(Placement { rank: r - 1, file: 0, ..f }, sep.drop_first()) == Some(Ok::<Placement, BoardError>(Placement { rank: r - 1, file: 0, ..f })));
        } else {
            assert(sep =~= Seq::<char>::empty());
        }
    }
}

proof fn lemma_fill_pieces(s: Placement, b: BoardModel, r: int, f: int)
    requires
        well_placed(b),
        0 <= r <= 7,
        0 <= f <= 8,
        s.rank == r,
        s.pieces.len() == 64,
    ensures
        fill_rank(s, b, r, f).pieces.len() == 64,
        fill_rank(s, b, r, f).rank == r,
        forall|j: int|
            0 <= j < 64 ==> #[trigger] fill_rank(s, b, r, f).pieces[j] == if j / 8 == r && j % 8
                >= f && b.pieces[j] is Some {
                b.pieces[j]
            } else {
                s.pieces[j]
            },
    decreases 8 - f,
{
    if f < 8 {
        let sq = Square(f as i8, r as i8);
        assert(sq.in_bounds() && sq.index() == r * 8 + f);
        match b.piece(sq) {
            Some(p) => {
                lemma_letter_piece(p);
                assert(b.pieces[r * 8 + f] == Some(p));
                assert((r * 8 + f) % 8 == f && (r * 8 + f) / 8 == r);
                assert(p.position == sq);
                let s2 = placement_step(Placement { file: f, ..s }, fen_letter(p))->0->Ok_0;
                assert(s2.pieces == s.pieces.update(r * 8 + f, Some(p)));
                lemma_fill_pieces(s2, b, r, f + 1);
                assert forall|j: int| 0 <= j < 64 implies #[trigger] fill_rank(s, b, r, f).pieces[j]
                    == if j / 8 == r && j % 8 >= f && b.pieces[j] is Some {
                    b.pieces[j]
                } else {
                    s.pieces[j]
                } by {
                    if j == r * 8 + f {
                    } else if j / 8 == r && j % 8 == f {
                        assert(j == r * 8 + f);
                    }
                }
            },
            None => {
                lemma_fill_pieces(Placement { file: f + 1, ..s }, b, r, f + 1);
                assert(b.pieces[r * 8 + f] is None);
                assert forall|j: int| 0 <= j < 64 implies #[trigger] fill_rank(s, b, r, f).pieces[j]
                    == if j / 8 == r && j % 8 >= f && b.pieces[j] is Some {
                    b.pieces[j]
                } else {
                    s.pieces[j]
                } by {
                    if j / 8 == r && j % 8 == f {
                        assert(j == r * 8 + f);
                    }
                }
            },
        }
    }
}

proof fn lemma_ranks_pieces(b: BoardModel, r: int)
    requires
        well_placed(b),
        0 <= r <= 8,
    ensures
        ranks_read(b, r).pieces.len() == 64,
        forall|j: int|
            0 <= j < 64 ==> #[trigger] ranks_read(b, r).pieces[j] == if j / 8 >= r && b.pieces[j] is Some {
                b.pieces[j]
            } else {
                None
            },
    decreases 8 - r,
{
    if r <= 7 {
        lemma_ranks_pieces(b, r + 1);
        lemma_ranks_read(b, r + 1);
        let prev = ranks_read(b, r + 1);
        lemma_fill_pieces(Placement { file: 0, ..prev }, b, r, 0);
    }
}

/// Whether a text holds no white space.
pub open spec fn no_ws(s: Seq<char>) -> bool {
    forall|i: int| 0 <= i < s.len() ==> !is_ws(#[trigger] s[i])
}

/// Whether a text is a field: not empty and without white space.
pub open spec fn is_field(s: Seq<char>) -> bool {
    s.len() > 0 && no_ws(s)
}

proof fn lemma_split_no_ws(s: Seq<char>, t: Seq<char>)
    requires
        no_ws(t),
    ensures
        split_state(s + t) == (split_state(s).0, split_state(s).1 + t),
    decreases t.len(),
{
    if t.len() == 0 {
        assert(s + t =~= s);
        assert(split_state(s).1 + t =~= split_state(s).1);
    } else {
        let t2 = t.drop_last();
        lemma_split_no_ws(s, t2);
        assert((s + t).drop_last() =~= s + t2);
        assert((s + t).last() == t.last());
        assert(!is_ws(t[t.len() - 1]));
        assert((split_state(s).1 + t2).push(t.last()) =~= split_state(s).1 + t);
    }
}

/// Fields joined by single spaces, the first `n` of them.
pub open spec fn join_fields(fields: Seq<Seq<char>>, n: int) -> Seq<char>
    decreases n,
{
    if n <= 1 {
        fields[0]
    } else {
        join_fields(fields, n - 1).push(' ') + fields[n - 1]
    }
}

proof fn lemma_join_split(fields: Seq<Seq<char>>, n: int)
    requires
        1 <= n <= fields.len(),
        forall|i: int| 0 <= i < fields.len() ==> is_field(#[trigger] fields[i]),
    ensures
        split_state(join_fields(fields, n)) == (fields.take(n - 1), fields[n - 1]),
    decreases n,
{
    if n == 1 {
        assert(is_field(fields[0]));
        lemma_split_no_ws(Seq::empty(), fields[0]);
        assert(Seq::<char>::empty() + fields[0] =~= fields[0]);
        assert(split_state(Seq::<char>::empty()) == (Seq::<Seq<char>>::empty(), Seq::<char>::empty()));
        assert(Seq::<char>::empty() + fields[0] =~= fields[0]);
        assert(fields.take(0) =~= Seq::<Seq<char>>::empty());
    } else {
        lemma_join_split(fields, n - 1);
        let prev = join_fields(fields, n - 1);
        assert(is_field(fields[n - 2]));
        assert(is_field(fields[n - 1]));
        assert(prev.push(' ').drop_last() =~= prev);
        assert(is_ws(' '));
        assert(split_state(prev.push(' ')) == (fields.take(n - 2).push(fields[n - 2]), Seq::<char>::empty()));
        assert(fields.take(n - 2).push(fields[n - 2]) =~= fields.take(n - 1));
        lemma_split_no_ws(prev.push(' '), fields[n - 1]);
        assert(Seq::<char>::empty() + fields[n - 1] =~= fields[n - 1]);
    }
}

/// The words of fields joined by single spaces are the fields.
proof fn lemma_words_of_fields(fields: Seq<Seq<char>>)
    requires
        fields.len() >= 1,
        forall|i: int| 0 <= i < fields.len() ==> is_field(#[trigger] fields[i]),
    ensures
        words(join_fields(fields, fields.len() as int)) == fields,
{
    lemma_join_split(fields, fields.len() as int);
    assert(is_field(fields[fields.len() - 1]));
    assert(fields.take(fields.len() - 1).push(fields[fields.len() - 1]) =~= fields);
}

proof fn lemma_dec_digits(n: nat)
    ensures
        dec(n).len() >= 1,
        forall|i: int| 0 <= i < dec(n).len() ==> is_digit(#[trigger] dec(n)[i]),
        no_ws(dec(n)),
        dec(n)[0] != '+' && dec(n)[0] != '-',
    decreases n,
{
    if n >= 10 {
        lemma_dec_digits(n / 10);
        assert forall|i: int| 0 <= i < dec(n).len() implies is_digit(#[trigger] dec(n)[i]) by {
            if i < dec(n / 10).len() {
                assert(dec(n)[i] == dec(n / 10)[i]);
            }
        }
    }
    assert forall|i: int| 0 <= i < dec(n).len() implies !is_ws(#[trigger] dec(n)[i]) by {
        assert(is_digit(dec(n)[i]));
    }
}

proof fn lemma_dec_value(n: nat)
    ensures
        digits_value(dec(n)) == n,
    decreases n,
{
    if n >= 10 {
        lemma_dec_value(n / 10);
        assert(dec(n).drop_last() =~= dec(n / 10));
        assert(dec(n).last() == digit_char((n % 10) as int));
        assert(digit_char((n % 10) as int) as int == (n % 10) + 48);
        assert((n / 10) * 10 + n % 10 == n) by (nonlinear_arith);
        assert(digits_value(dec(n)) == digits_value(dec(n / 10)) * 10 + (n % 10));
    } else {
        let d = dec(n);
        assert(d == seq![digit_char(n as int)]);
        assert(d.len() == 1);
        assert(d.drop_last() =~= Seq::<char>::empty());
        assert(d.last() == digit_char(n as int));
        assert(d.last() as int == n + 48);
        assert(digits_value(Seq::<char>::empty()) == 0);
        assert(digits_value(d) == digits_value(d.drop_last()) * 10 + (d.last() as int - 48));
        assert(dec(n).drop_last() =~= Seq::<char>::empty());
        assert(digit_char(n as int) as int == n + 48);
    }
}

/// Reading a number written in decimal gives it back.
proof fn lemma_parse_dec(n: nat, max: int)
    requires
        n <= max,
    ensures
        parse_unsigned(dec(n), max) == Some(n as int),
{
    lemma_dec_digits(n);
    lemma_dec_value(n);
    assert(unsigned_digits(dec(n)) == dec(n));
}

proof fn lemma_letter_not_ws(p: ChessPiece)
    ensures
        !is_ws(fen_letter(p)),
{
}

proof fn lemma_rank_text_field(b: BoardModel, r: int, c: int, k: int)
    requires
        0 <= k <= 8,
        0 <= c,
        k + (8 - c) <= 8,
    ensures
        no_ws(rank_text_from(b, r, c, k)),
    decreases 8 - c,
{
    if k != 0 {
        lemma_dec_digits(k as nat);
    }
    assert(no_ws(empty_run(k))) by {
        if k != 0 {
            lemma_dec_digits(k as nat);
        }
    }
    if c < 8 {
        match b.piece(Square(c as i8, r as i8)) {
            Some(p) => {
                lemma_rank_text_field(b, r, c + 1, 0);
                lemma_letter_not_ws(p);
                let t = empty_run(k) + seq![fen_letter(p)] + rank_text_from(b, r, c + 1, 0);
                assert forall|i: int| 0 <= i < t.len() implies !is_ws(#[trigger] t[i]) by {
                    if i < empty_run(k).len() {
                        assert(t[i] == empty_run(k)[i]);
                    } else if i == empty_run(k).len() {
                        assert(t[i] == fen_letter(p));
                    } else {
                        assert(t[i] == rank_text_from(b, r, c + 1, 0)[i - empty_run(k).len() - 1]);
                    }
                }
            },
            None => {
                lemma_rank_text_field(b, r, c + 1, k + 1);
            },
        }
    }
}

proof fn lemma_ranks_text_field(b: BoardModel, r: int)
    requires
        0 <= r <= 8,
    ensures
        no_ws(ranks_text_down_to(b, r)),
        r <= 1 ==> ranks_text_down_to(b, r).len() >= 1,
    decreases 8 - r,
{
    if r <= 7 {
        lemma_ranks_text_field(b, r + 1);
        lemma_rank_text_field(b, r, 0, 0);
        let a = ranks_text_down_to(b, r + 1);
        let t = rank_text_from(b, r, 0, 0);
        let sep: Seq<char> = if r != 0 { seq!['/'] } else { Seq::empty() };
        assert(ranks_text_down_to(b, r) == a + t + sep);
        assert forall|i: int| 0 <= i < (a + t + sep).len() implies !is_ws(#[trigger] (a + t + sep)[i]) by {
            if i < a.len() {
                assert((a + t + sep)[i] == a[i]);
            } else if i < a.len() + t.len() {
                assert((a + t + sep)[i] == t[i - a.len()]);
            } else {
                assert((a + t + sep)[i] == sep[i - a.len() - t.len()]);
            }
        }
    }
}

proof fn lemma_castling_text_field(c: AvailableCastles)
    ensures
        is_field(castling_text(c)),
        castling_from(no_castles(), castling_text(c)) == Some(c),
{
    reveal_with_fuel(castling_from, 5);
    let t = castling_text(c);
    if c.white_short {
        if c.white_long {
            if c.black_short {
                if c.black_long {
                    assert(t =~= seq!['K', 'Q', 'k', 'q']);
                } else {
                    assert(t =~= seq!['K', 'Q', 'k']);
                }
            } else {
                if c.black_long {
                    assert(t =~= seq!['K', 'Q', 'q']);
                } else {
                    assert(t =~= seq!['K', 'Q']);
                }
            }
        } else {
            if c.black_short {
                if c.black_long {
                    assert(t =~= seq!['K', 'k', 'q']);
                } else {
                    assert(t =~= seq!['K', 'k']);
                }
            } else {
                if c.black_long {
                    assert(t =~= seq!['K', 'q']);
                } else {
                    assert(t =~= seq!['K']);
                }
            }
        }
    } else {
        if c.white_long {
            if c.black_short {
                if c.black_long {
                    assert(t =~= seq!['Q', 'k', 'q']);
                } else {
                    assert(t =~= seq!['Q', 'k']);
                }
            } else {
                if c.black_long {
                    assert(t =~= seq!['Q', 'q']);
                } else {
                    assert(t =~= seq!['Q']);
                }
            }
        } else {
            if c.black_short {
                if c.black_long {
                    assert(t =~= seq!['k', 'q']);
                } else {
                    assert(t =~= seq!['k']);
                }
            } else {
                if c.black_long {
                    assert(t =~= seq!['q']);
                } else {
                    assert(t =~= seq!['-']);
                }
            }
        }
    }
}

proof fn lemma_ep_text(ep: Option<Square>)
    requires
        ep matches Some(sq) ==> sq.in_bounds(),
    ensures
        is_field(ep_text(ep)),
        (ep_text(ep) == seq!['-']) == (ep is None),
        ep matches Some(sq) ==> square_of_word(ep_text(ep)) == Some(Ok::<Square, BoardError>(sq)),
{
    match ep {
        None => {},
        Some(sq) => {
            let t = square_text(sq);
            let y1 = (sq.1 + 1) as nat;
            lemma_dec_small(y1 as int);
            assert(crate::text::int_dec(sq.1 + 1) == dec(y1));
            let f = ((sq.0 as u8) as int + 97) as char;
            assert((sq.0 as u8) as int == sq.0);
            assert(t =~= seq![f, digit_char(y1 as int)]);
            assert(f as int == sq.0 + 97);
            assert(digit_char(y1 as int) as int == sq.1 + 49);
            assert(!is_ws(t[0]) && !is_ws(t[1]));
            assert(t.drop_last() =~= seq![f]);
            assert(t.drop_last().drop_last() =~= Seq::<char>::empty());
            assert(byte_len(Seq::<char>::empty()) == 0);
            assert(byte_len(seq![f]) == 1);
            assert(byte_len(t) == 2);
            assert(low_byte(t[0]) == sq.0 + 97);
            assert(is_digit(t[1]));
            assert(t.len() == 2);
            if t == seq!['-'] {
                assert(t.len() == 1);
            }
        },
    }
}

/// The fields of the FEN text of a position, in order.
pub open spec fn fen_fields(b: BoardModel) -> Seq<Seq<char>> {
    seq![
        ranks_text_down_to(b, 0),
        if b.turn == Color::White { seq!['w'] } else { seq!['b'] },
        castling_text(b.castling),
        ep_text(b.en_passant_square),
        dec(b.half_move_timer_50 as nat),
        dec(b.full_move_number as nat),
    ]
}

proof fn lemma_fen_words(b: BoardModel)
    requires
        b.en_passant_square matches Some(sq) ==> sq.in_bounds(),
    ensures
        words(fen_text(b)) == fen_fields(b),
{
    let fs = fen_fields(b);
    lemma_ranks_text_field(b, 0);
    lemma_castling_text_field(b.castling);
    lemma_ep_text(b.en_passant_square);
    lemma_dec_digits(b.half_move_timer_50 as nat);
    lemma_dec_digits(b.full_move_number as nat);
    assert(is_field(fs[1])) by {
        assert(!is_ws('w') && !is_ws('b'));
    }
    assert forall|i: int| 0 <= i < fs.len() implies is_field(#[trigger] fs[i]) by {
        if i == 0 {
            assert(fs[0] == ranks_text_down_to(b, 0));
        }
    }
    lemma_words_of_fields(fs);
    let turn: Seq<char> = if b.turn == Color::White { seq!['w'] } else { seq!['b'] };
    let spaced: Seq<char> = if b.turn == Color::White { seq![' ', 'w', ' '] } else { seq![' ', 'b', ' '] };
    assert(spaced =~= seq![' '] + turn + seq![' ']);
    let j1 = join_fields(fs, 1);
    let j2 = join_fields(fs, 2);
    let j3 = join_fields(fs, 3);
    let j4 = join_fields(fs, 4);
    let j5 = join_fields(fs, 5);
    let j6 = join_fields(fs, 6);
    assert(j1 == fs[0]);
    assert(j2 == j1.push(' ') + fs[1]);
    assert(j3 == j2.push(' ') + fs[2]);
    assert(j4 == j3.push(' ') + fs[3]);
    assert(j5 == j4.push(' ') + fs[4]);
    assert(j6 == j5.push(' ') + fs[5]);
    let r = ranks_text_down_to(b, 0);
    let c = castling_text(b.castling);
    let e = ep_text(b.en_passant_square);
    let h = dec(b.half_move_timer_50 as nat);
    let f = dec(b.full_move_number as nat);
    assert(j2 =~= r + seq![' '] + turn);
    assert(j3 =~= r + spaced + c);
    assert(j4 =~= r + spaced + c + seq![' '] + e);
    assert(j5 =~= r + spaced + c + seq![' '] + e + seq![' '] + h);
    assert(j6 =~= r + spaced + c + seq![' '] + e + seq![' '] + h + seq![' '] + f);
    assert(j6 =~= fen_text(b));
}

/// Reading the written name of a square on the board gives the square back.
pub proof fn lemma_square_name_round_trip(sq: Square)
    requires
        sq.in_bounds(),
    ensures
        square_of_word(square_text(sq)) == Some(Ok::<Square, BoardError>(sq)),
{
    lemma_ep_text(Some(sq));
}

/// Writing a position in FEN and reading it back gives the position again: the pieces,
/// the side to move, the castling rights, the en passant target and the clocks are read
/// as written, provided every piece records its own square and the en passant target lies
/// on the board; the mating material and the king positions are recounted from the pieces
/// while reading.
pub proof fn lemma_fen_round_trip(b: BoardModel)
    requires
        well_placed(b),
        b.en_passant_square matches Some(sq) ==> sq.in_bounds(),
    ensures
        spec_parse_fen(fen_text(b)) == Some(
            Ok::<BoardModel, BoardError>(
                BoardModel {
                    mating_material: (
                        ranks_read(b, 0).white_material as u8,
                        ranks_read(b, 0).black_material as u8,
                    ),
                    king_positions: (ranks_read(b, 0).white_king, ranks_read(b, 0).black_king),
                    ..b
                },
            ),
        ),
{
    lemma_fen_words(b);
    lemma_ranks_read(b, 0);
    lemma_ranks_pieces(b, 0);
    assert(ranks_read(b, 0).pieces =~= b.pieces);
    lemma_castling_text_field(b.castling);
    lemma_ep_text(b.en_passant_square);
    lemma_parse_dec(b.half_move_timer_50 as nat, 255);
    lemma_parse_dec(b.full_move_number as nat, 65535);
    let w = words(fen_text(b));
    assert(w[1] == seq!['w'] <==> b.turn == Color::White) by {
        if b.turn != Color::White {
            assert(w[1] == seq!['b']);
            assert(seq!['b'][0] != seq!['w'][0]);
        }
    }
}

proof fn lemma_set_well_placed(b: BoardModel, sq: Square, x: Option<ChessPiece>)
    requires
        well_placed(b),
        sq.in_bounds(),
        x matches Some(p) ==> p.position == sq,
    ensures
        well_placed(b.set(sq, x)),
{
    let b2 = b.set(sq, x);
    assert forall|i: int| 0 <= i < 64 implies (#[trigger] b2.pieces[i] matches Some(p) ==> p.position
        == Square((i % 8) as i8, (i / 8) as i8)) by {
        if i == sq.index() {
            assert(i % 8 == sq.0 && i / 8 == sq.1);
        }
    }
}

proof fn lemma_take_well_placed(b: BoardModel, sq: Square)
    requires
        well_placed(b),
    ensures
        well_placed(b.take(sq).0),
{
    if sq.in_bounds() && b.piece(sq) is Some {
        lemma_set_well_placed(b, sq, None);
    }
}

proof fn lemma_place_well_placed(b: BoardModel, p: ChessPiece, sq: Square)
    requires
        well_placed(b),
    ensures
        well_placed(b.place(p, sq).0),
{
    if sq.in_bounds() {
        lemma_set_well_placed(b, sq, Some(ChessPiece { position: sq, ..p }));
    }
}

/// The position after the pieces of a move have been moved.
pub open spec fn pieces_after(b: BoardModel, m: ChessMove) -> BoardModel {
    match m.spec_register(b) {
        Some((b2, _)) => b2,
        None => b,
    }
}

/// Moving the pieces of a move keeps every piece on the square it records.
#[verifier::spinoff_prover]
#[verifier::rlimit(60)]
proof fn lemma_pieces_keep_places(b: BoardModel, m: ChessMove)
    requires
        well_placed(b),
        m.spec_register(b) is Some,
    ensures
        well_placed(pieces_after(b, m)),
{
    match m.move_type {
        MoveType::Move(_) => {
            lemma_take_well_placed(b, m.from);
            let (b1, r) = b.take(m.from);
            if let Ok(p) = r {
                let b2 = if p.piece_type == PieceType::King { b1.with_king(m.to, p.color) } else { b1 };
                let b3 = if p.piece_type == PieceType::Pawn {
                    let dr = m.to.1 - m.from.1;
                    let b3a = if dr == 2 || dr == -2 {
                        b2.with_ep(Some(crate::move_register::ep_target_behind(m.to, p.color)))
                    } else {
                        b2
                    };
                    BoardModel { half_move_timer_50: 0, ..b3a }
                } else {
                    b2
                };
                lemma_place_well_placed(b3, p, m.to);
            }
        },
        MoveType::Capture(_) => {
            lemma_take_well_placed(b, m.from);
            let (b1, r) = b.take(m.from);
            if let Ok(p) = r {
                lemma_take_well_placed(b1, m.to);
                let (b2, r2) = b1.take(m.to);
                if let Ok(cap) = r2 {
                    let b3 = if p.piece_type == PieceType::King { b2.with_king(m.to, p.color) } else { b2 };
                    if let Some(b4) = b3.with_material_change(
                        cap.color,
                        -(crate::move_generator::models::spec_mating_points(cap.piece_type) as int),
                    ) {
                        lemma_place_well_placed(b4, p, m.to);
                    }
                }
            }
        },
        MoveType::EnPassantMove => {
            lemma_take_well_placed(b, m.from);
            let (b1, r) = b.take(m.from);
            if let Ok(p) = r {
                let cs = crate::move_register::ep_captured_square(m.to, p.color);
                lemma_take_well_placed(b1, cs);
                let (b2, r2) = b1.take(cs);
                if let Ok(cap) = r2 {
                    if let Some(b3) = b2.with_material_change(cap.color, -3) {
                        lemma_place_well_placed(b3, p, m.to);
                    }
                }
            }
        },
        MoveType::CastleMove(ct) => {
            let (kp, rp, tk, tr) = crate::move_register::castle_squares(ct);
            lemma_take_well_placed(b, kp);
            let (b1, r) = b.take(kp);
            if let Ok(k) = r {
                let b2 = b1.with_king(tk, k.color);
                lemma_take_well_placed(b2, rp);
                let (b3, r2) = b2.take(rp);
                if let Ok(rook) = r2 {
                    lemma_place_well_placed(b3, k, tk);
                    let (b4, _) = b3.place(k, tk);
                    lemma_place_well_placed(b4, rook, tr);
                }
            }
        },
        MoveType::PromotionMove(ppt) => {
            lemma_take_well_placed(b, m.from);
            let (b1, r) = b.take(m.from);
            if let Ok(p) = r {
                let new_p = crate::move_register::spec_promote_piece(ppt, m.to, p.color);
                if let Some(b2) = b1.with_material_change(
                    new_p.color,
                    crate::move_generator::models::spec_mating_points(new_p.piece_type) - 3,
                ) {
                    lemma_place_well_placed(b2, new_p, m.to);
                }
            }
        },
        MoveType::PromotionCapture(ppt) => {
            lemma_take_well_placed(b, m.from);
            let (b1, r) = b.take(m.from);
            if let Ok(p) = r {
                lemma_take_well_placed(b1, m.to);
                let (b2, r2) = b1.take(m.to);
                if let Ok(cap) = r2 {
                    let new_p = crate::move_register::spec_promote_piece(ppt, m.to, p.color);
                    if let Some(b3) = b2.with_material_change(
                        cap.color,
                        -(crate::move_generator::models::spec_mating_points(cap.piece_type) as int),
                    ) {
                        if let Some(b4) = b3.with_material_change(
                            new_p.color,
                            crate::move_generator::models::spec_mating_points(new_p.piece_type) - 3,
                        ) {
                            lemma_place_well_placed(b4, new_p, m.to);
                        }
                    }
                }
            }
        },
    }
}

/// Playing a move, whether it succeeds or fails, keeps every piece on the square it
/// records as its position.
pub proof fn lemma_register_keeps_places(b: BoardModel, m: ChessMove)
    requires
        well_placed(b),
        b.spec_register_move(m) is Some,
    ensures
        well_placed(crate::chess_bot::zobrist::registered(b, m)),
{
    let b1 = BoardModel {
        half_move_timer_50: if crate::board_setup::models::resets_half_move_timer(m) {
            0
        } else {
            (b.half_move_timer_50 + 1) as u8
        },
        ..b
    };
    let b2 = BoardModel { en_passant_square: None, castling: b1.castling_after(m), ..b1 };
    assert(well_placed(b2));
    lemma_pieces_keep_places(b2, m);
}

/// Whether a square holds a king of a side.
pub open spec fn king_at(x: Option<ChessPiece>, c: Color) -> bool {
    x matches Some(p) && p.piece_type == PieceType::King && p.color == c
}

/// Whether a position has a king of a side on the board.
pub open spec fn has_king(pieces: Seq<Option<ChessPiece>>, c: Color) -> bool {
    exists|j: int| 0 <= j < 64 && king_at(#[trigger] pieces[j], c)
}

/// What the placement reader keeps true while it reads a sound position: its material
/// counts are those of the pieces read so far, and its king squares are the recorded ones
/// once a king of that side has been read (the first square before).
spec fn reader_ok(s: Placement, b: BoardModel) -> bool {
    &&& s.pieces.len() == 64
    &&& s.white_material == mating_count(s.pieces, Color::White, 64)
    &&& s.black_material == mating_count(s.pieces, Color::Black, 64)
    &&& s.white_king == if has_king(s.pieces, Color::White) {
        b.king_positions.0
    } else {
        Square(0, 0)
    }
    &&& s.black_king == if has_king(s.pieces, Color::Black) {
        b.king_positions.1
    } else {
        Square(0, 0)
    }
}

proof fn lemma_fill_reader(s: Placement, b: BoardModel, r: int, f: int)
    requires
        well_placed(b),
        kings_recorded(b),
        0 <= r <= 7,
        0 <= f <= 8,
        s.rank == r,
        reader_ok(s, b),
        forall|j: int| 0 <= j < 64 && j / 8 == r && j % 8 >= f ==> (#[trigger] s.pieces[j]) is None,
    ensures
        reader_ok(fill_rank(s, b, r, f), b),
    decreases 8 - f,
{
    if f < 8 {
        let sq = Square(f as i8, r as i8);
        let k = r * 8 + f;
        assert(sq.in_bounds() && sq.index() == k);
        assert(k % 8 == f && k / 8 == r);
        match b.piece(sq) {
            Some(p) => {
                lemma_letter_piece(p);
                assert(b.pieces[k] == Some(p));
                assert(p.position == sq);
                let s1 = Placement { file: f, ..s };
                let s2 = placement_step(s1, fen_letter(p))->0->Ok_0;
                assert(s2.pieces == s.pieces.update(k, Some(p)));
                lemma_count_update(s.pieces, Color::White, 64, k, Some(p));
                lemma_count_update(s.pieces, Color::Black, 64, k, Some(p));
                assert(s.pieces[k] is None);
                if p.piece_type == PieceType::King {
                    assert(b.pieces[k] matches Some(q) ==> (q.piece_type == PieceType::King ==> Square(
                        (k % 8) as i8,
                        (k / 8) as i8,
                    ) == king_of(b, q.color)));
                }
                assert forall|c: Color| has_king(s2.pieces, c) == (has_king(s.pieces, c) || (
                p.piece_type == PieceType::King && p.color == c)) by {
                    if has_king(s2.pieces, c) {
                        let j = choose|j: int| 0 <= j < 64 && king_at(#[trigger] s2.pieces[j], c);
                        if j != k {
                            assert(king_at(s.pieces[j], c));
                        }
                    }
                    if has_king(s.pieces, c) {
                        let j = choose|j: int| 0 <= j < 64 && king_at(#[trigger] s.pieces[j], c);
                        assert(j != k);
                        assert(king_at(s2.pieces[j], c));
                    }
                    if p.piece_type == PieceType::King && p.color == c {
                        assert(king_at(s2.pieces[k], c));
                    }
                }
                assert(has_king(s2.pieces, Color::White) == (has_king(s.pieces, Color::White) || (
                p.piece_type == PieceType::King && p.color == Color::White)));
                assert(has_king(s2.pieces, Color::Black) == (has_king(s.pieces, Color::Black) || (
                p.piece_type == PieceType::King && p.color == Color::Black)));
                assert(reader_ok(s2, b));
                lemma_fill_reader(s2, b, r, f + 1);
            },
            None => {
                lemma_fill_reader(Placement { file: f + 1, ..s }, b, r, f + 1);
            },
        }
    }
}

proof fn lemma_ranks_reader(b: BoardModel, r: int)
    requires
        well_placed(b),
        kings_recorded(b),
        0 <= r <= 8,
    ensures
        reader_ok(ranks_read(b, r), b),
    decreases 8 - r,
{
    if r > 7 {
        let s = placement_start();
        lemma_count_flat(s.pieces, Color::White, 0, 64);
        lemma_count_flat(s.pieces, Color::Black, 0, 64);
        assert(!has_king(s.pieces, Color::White));
        assert(!has_king(s.pieces, Color::Black));
    } else {
        lemma_ranks_reader(b, r + 1);
        lemma_ranks_read(b, r + 1);
        lemma_ranks_pieces(b, r + 1);
        let prev = ranks_read(b, r + 1);
        let s = Placement { file: 0, ..prev };
        assert(forall|j: int| 0 <= j < 64 && j / 8 == r && j % 8 >= 0 ==> (#[trigger] s.pieces[j]) is None);
        lemma_fill_reader(s, b, r, 0);
    }
}

/// Writing a sound position that has both kings on the board in FEN and reading it back
/// gives the position itself: the mating material and the king squares recounted while
/// reading are the recorded ones.
pub proof fn lemma_fen_round_trip_sound(b: BoardModel)
    requires
        sound_position(b),
        has_king(b.pieces, Color::White),
        has_king(b.pieces, Color::Black),
    ensures
        spec_parse_fen(fen_text(b)) == Some(Ok::<BoardModel, BoardError>(b)),
{
    lemma_fen_round_trip(b);
    lemma_ranks_reader(b, 0);
    lemma_ranks_pieces(b, 0);
    assert(ranks_read(b, 0).pieces =~= b.pieces);
    let m = BoardModel {
        mating_material: (
            ranks_read(b, 0).white_material as u8,
            ranks_read(b, 0).black_material as u8,
        ),
        king_positions: (ranks_read(b, 0).white_king, ranks_read(b, 0).black_king),
        ..b
    };
    assert(m == b);
}

proof fn lemma_rank_text_pieces(a: BoardModel, c: BoardModel, r: int, col: int, k: int)
    requires
        a.pieces == c.pieces,
    ensures
        rank_text_from(a, r, col, k) == rank_text_from(c, r, col, k),
    decreases 8 - col,
{
    if col < 8 {
        lemma_rank_text_pieces(a, c, r, col + 1, 0);
        lemma_rank_text_pieces(a, c, r, col + 1, k + 1);
    }
}

proof fn lemma_ranks_text_pieces(a: BoardModel, c: BoardModel, r: int)
    requires
        a.pieces == c.pieces,
    ensures
        ranks_text_down_to(a, r) == ranks_text_down_to(c, r),
    decreases 8 - r,
{
    if r <= 7 {
        lemma_ranks_text_pieces(a, c, r + 1);
        lemma_rank_text_pieces(a, c, r, 0, 0);
    }
}

/// Reading a FEN text that the writer produces and writing the position read gives the
/// same text again: for every text written for a position whose pieces record their own
/// squares and whose en passant target lies on the board, reading succeeds and the FEN of
/// the position read is that text.
pub proof fn lemma_written_fen_reads_back(s: Seq<char>, b: BoardModel)
    requires
        well_placed(b),
        b.en_passant_square matches Some(sq) ==> sq.in_bounds(),
        s == fen_text(b),
    ensures
        spec_parse_fen(s) matches Some(Ok(read)) && fen_text(read) == s,
{
    lemma_fen_round_trip(b);
    let read = BoardModel {
        mating_material: (
            ranks_read(b, 0).white_material as u8,
            ranks_read(b, 0).black_material as u8,
        ),
        king_positions: (ranks_read(b, 0).white_king, ranks_read(b, 0).black_king),
        ..b
    };
    lemma_ranks_text_pieces(read, b, 0);
    assert(fen_text(read) =~= fen_text(b));
}

/// Reading castling letters from some rights grants short castling to white exactly when
/// it was granted before or a `K` is read, long castling to white with a `Q`, short
/// castling to black with a `k` and long castling to black with a `q`.
proof fn lemma_castling_letters(c: AvailableCastles, cs: Seq<char>)
    requires
        castling_from(c, cs) is Some,
    ensures
        castling_from(c, cs)->0.white_short == (c.white_short || cs.contains('K')),
        castling_from(c, cs)->0.white_long == (c.white_long || cs.contains('Q')),
        castling_from(c, cs)->0.black_short == (c.black_short || cs.contains('k')),
        castling_from(c, cs)->0.black_long == (c.black_long || cs.contains('q')),
    decreases cs.len(),
{
    if cs.len() > 0 {
        let ch = cs[0];
        let rest = cs.drop_first();
        let c2 = if ch == 'K' {
            AvailableCastles { white_short: true, ..c }
        } else if ch == 'k' {
            AvailableCastles { black_short: true, ..c }
        } else if ch == 'Q' {
            AvailableCastles { white_long: true, ..c }
        } else if ch == 'q' {
            AvailableCastles { black_long: true, ..c }
        } else {
            c
        };
        lemma_castling_letters(c2, rest);
        assert forall|x: char| cs.contains(x) <==> (ch == x || rest.contains(x)) by {
            if cs.contains(x) {
                let i = choose|i: int| 0 <= i < cs.len() && cs[i] == x;
                if i > 0 {
                    assert(rest[i - 1] == x);
                }
            }
            if rest.contains(x) {
                let i = choose|i: int| 0 <= i < rest.len() && rest[i] == x;
                assert(cs[i + 1] == x);
            }
            if ch == x {
                assert(cs[0] == x);
            }
        }
    }
}

/// The castling rights read from a FEN text are the letters of its third field: white may
/// castle short exactly when the field holds a `K`, long exactly when it holds a `Q`, and
/// black short exactly when it holds a `k`, long exactly when it holds a `q`.
pub proof fn lemma_fen_castling_letters(s: Seq<char>)
    requires
        spec_parse_fen(s) matches Some(Ok(b)),
    ensures
        words(s).len() >= 3,
        spec_parse_fen(s) matches Some(Ok(b)) && {
            &&& b.castling.white_short == words(s)[2].contains('K')
            &&& b.castling.white_long == words(s)[2].contains('Q')
            &&& b.castling.black_short == words(s)[2].contains('k')
            &&& b.castling.black_long == words(s)[2].contains('q')
        },
{
    lemma_castling_letters(no_castles(), words(s)[2]);
}

/// The castling field written for some rights holds a `K` exactly when white may castle
/// short, a `Q` exactly when white may castle long, a `k` exactly when black may castle
/// short and a `q` exactly when black may castle long.
pub proof fn lemma_castling_text_letters(c: AvailableCastles)
    ensures
        castling_text(c).contains('K') == c.white_short,
        castling_text(c).contains('Q') == c.white_long,
        castling_text(c).contains('k') == c.black_short,
        castling_text(c).contains('q') == c.black_long,
{
    let e = Seq::<char>::empty();
    let a = if c.white_short { seq!['K'] } else { e };
    let bq = if c.white_long { seq!['Q'] } else { e };
    let k = if c.black_short { seq!['k'] } else { e };
    let q = if c.black_long { seq!['q'] } else { e };
    let t = a + bq + k + q;
    assert forall|x: char| t.contains(x) <==> (a.contains(x) || bq.contains(x) || k.contains(x) || q.contains(x)) by {
        if t.contains(x) {
            let i = choose|i: int| 0 <= i < t.len() && t[i] == x;
            if i < a.len() {
                assert(a[i] == x);
            } else if i < a.len() + bq.len() {
                assert(bq[i - a.len()] == x);
            } else if i < a.len() + bq.len() + k.len() {
                assert(k[i - a.len() - bq.len()] == x);
            } else {
                assert(q[i - a.len() - bq.len() - k.len()] == x);
            }
        }
        if a.contains(x) {
            assert(t[0] == x);
        }
        if bq.contains(x) {
            assert(t[a.len() as int] == x);
        }
        if k.contains(x) {
            assert(t[(a.len() + bq.len()) as int] == x);
        }
        if q.contains(x) {
            assert(t[(a.len() + bq.len() + k.len()) as int] == x);
        }
    }
    assert(seq!['K'][0] == 'K' && seq!['Q'][0] == 'Q' && seq!['k'][0] == 'k' && seq!['q'][0] == 'q');
    assert(seq!['-'][0] == '-');
    if t.len() == 0 {
        assert(!c.white_short && !c.white_long && !c.black_short && !c.black_long);
    }
}

} // verus!
