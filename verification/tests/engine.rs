use std::collections::BTreeMap;

use backend::board_setup::fen::parse_fen;
use backend::board_setup::models::{Board, BoardError, FenNotation};
use backend::chess_bot::evaluation::Evaluation;
use backend::chess_bot::pawn_structure::{evaluate_pawn_weaknesses, get_pawn_weaknesses_from_board};
use backend::chess_bot::piece_tables::{evaluate_chg, material_value, piece_value};
use backend::chess_bot::space_eval::Space;
use backend::chess_bot::zobrist::{castle_to_hash_idx, ZobristBitmasks, hash_with_move, to_hash_idx, zobrist_hash};
use backend::chess_bot::{
    choose_move, evaluate_position, get_ordered_moves, is_attacked_by_pawn, is_endgame,
    is_forcing, search_game_tree, MovePayload,
};
use backend::config::AppSettings;
use backend::game_state::{game_end, GameEnd, GameState};
use backend::move_generator::models::{ChessPiece, Color, Moves, PieceType, Square};
use backend::move_register::models::{CastleType, ChessMove, MoveType, PromotedPieceType};
use backend::opening_book::move_parser::{parse_move, parse_move_checked, MoveParseError};
use backend::opening_book::{record_book_move, MoveDescription, OpeningBook, OpeningBookError};

const START: &str = "rnbqkbnr/pppppppp/8/8/8/8/PPPPPPPP/RNBQKBNR w KQkq - 0 1";

fn board_of(fen: &str) -> Board {
    Board::try_from(FenNotation(fen.to_string())).unwrap()
}

#[test]
fn fen_round_trip_of_start_position() {
    let board = board_of(START);
    assert_eq!(FenNotation::from(&board).0, START);
    assert_eq!(FenNotation::from(&Board::new_game()).0, START);
    assert_eq!(board.mating_material, (39, 39));
    assert_eq!(board.king_positions, (Square(4, 0), Square(4, 7)));
}

#[test]
fn fen_round_trip_after_moves() {
    let fen = "r3k2r/p1ppqpb1/bn2pnp1/3PN3/1p2P3/2N2Q1p/PPPBBPPP/R3K2R b Kq e3 12 34";
    let board = board_of(fen);
    assert_eq!(FenNotation::from(&board).0, fen);
    assert_eq!(board.en_passant_square, Some(Square(4, 2)));
    assert_eq!(board.half_move_timer_50, 12);
    assert_eq!(board.full_move_number, 34);
}

#[test]
fn empty_board() {
    let board = Board::new_empty();
    assert_eq!(FenNotation::from(&board).0, "8/8/8/8/8/8/8/8 w - - 0 1");
}

#[test]
fn fen_errors() {
    assert!(matches!(
        Board::try_from(FenNotation("rnbqkbnr/ppppxppp/8/8/8/8/PPPPPPPP/RNBQKBNR w KQkq - 0 1".into())),
        Err(BoardError::ConversionFailure)
    ));
    assert!(matches!(
        Board::try_from(FenNotation("8/8/8/8/8/8/8/8 w KX - 0 1".into())),
        Err(BoardError::ConversionFailure)
    ));
    assert!(matches!(
        Board::try_from(FenNotation("8/8/8/8/8/8/8/8 w - - 256 1".into())),
        Err(BoardError::ConversionFailure)
    ));
    assert!(matches!(
        Board::try_from(FenNotation("8/8/8/8/8/8/8/8 w - e33 0 1".into())),
        Err(BoardError::ConversionFailure)
    ));
    // a text that cannot be read at all gives `None`
    assert!(parse_fen("8/8/8/8/8/8/8/8 x - - 0 1").is_none());
    assert!(parse_fen("8/8/8/8/8/8/8/8/8 w - - 0 1").is_none());
    assert!(parse_fen("8/8/8").is_none());
    assert!(parse_fen("").is_none());
    // a leading plus sign is read
    assert_eq!(parse_fen("8/8/8/8/8/8/8/8 w - - +7 1").unwrap().unwrap().half_move_timer_50, 7);
}

#[test]
fn draw_fen() {
    let fen = FenNotation(START.into());
    assert_eq!(fen.to_draw_fen(), "rnbqkbnr/pppppppp/8/8/8/8/PPPPPPPP/RNBQKBNR w KQkq");
}

#[test]
fn board_drawing() {
    let board = Board::new_game();
    let text = board.to_string();
    assert!(text.starts_with("rnbqkbnr\npppppppp\n........\n"));
    assert!(text.ends_with("PPPPPPPP\nRNBQKBNR\n"));
}

#[test]
fn hash_changes_with_move_and_back() {
    let mut board = Board::new_game();
    let start_hash = board.hash_board();
    assert_eq!(start_hash, zobrist_hash(&board));
    let moves = [
        ChessMove { move_type: MoveType::Move(PieceType::Knight), from: Square(6, 0), to: Square(5, 2) },
        ChessMove { move_type: MoveType::Move(PieceType::Knight), from: Square(6, 7), to: Square(5, 5) },
        ChessMove { move_type: MoveType::Move(PieceType::Knight), from: Square(5, 2), to: Square(6, 0) },
        ChessMove { move_type: MoveType::Move(PieceType::Knight), from: Square(5, 5), to: Square(6, 7) },
    ];
    let mut hash = start_hash;
    for m in moves {
        hash = hash_with_move(hash, &board, m);
        board.register_move(m).unwrap();
        assert_eq!(hash, board.hash_board());
    }
    assert_eq!(hash, start_hash);
}

#[test]
fn hash_of_capture_and_castling() {
    let mut board = board_of("r3k2r/8/8/8/8/8/8/R3K2R w KQkq - 0 1");
    let castle = ChessMove {
        move_type: MoveType::CastleMove(CastleType::WhiteShort),
        from: Square(4, 0),
        to: Square(6, 0),
    };
    let h = hash_with_move(board.hash_board(), &board, castle);
    board.register_move(castle).unwrap();
    assert_eq!(h, board.hash_board());
    let capture = ChessMove {
        move_type: MoveType::Capture(PieceType::Rook),
        from: Square(0, 7),
        to: Square(0, 0),
    };
    let h = hash_with_move(board.hash_board(), &board, capture);
    board.register_move(capture).unwrap();
    assert_eq!(h, board.hash_board());
}

#[test]
fn hash_indices() {
    assert_eq!(to_hash_idx(PieceType::Pawn, Color::White), 0);
    assert_eq!(to_hash_idx(PieceType::King, Color::Black), 11);
    assert_eq!(castle_to_hash_idx(CastleType::BlackLong), 3);
}

#[test]
fn evaluation_arithmetic() {
    let a = Evaluation { material: 100, pst: 50, pawn_structure: -50, space: 10, king_dist: 4 };
    assert_eq!(a.total(), 114);
    let scaled = a.with_positional_factor(60);
    assert_eq!((scaled.pst, scaled.pawn_structure, scaled.space), (30, -30, 6));
    let b = Evaluation { material: -7, pst: -3, pawn_structure: 33, space: 0, king_dist: -1 };
    assert_eq!(a.add(b).total(), a.total() + b.total());
    assert_eq!(a.sub(b).total(), a.total() - b.total());
    let mut c = a;
    c.add_assign(b);
    c.sub_assign(b);
    assert_eq!(c.total(), a.total());
    assert_eq!(Evaluation::new().total(), 0);
    assert_eq!(Evaluation::max().total(), 5 * 32767);
    assert_eq!(Evaluation::min().material, -32768);
    assert_eq!(Evaluation::max_material().total(), 32767);
    assert_eq!(Evaluation::min_material().total(), -32768);
    assert_eq!(a.compare(&b), 1);
    let neg = Evaluation { material: -101, pst: 0, pawn_structure: 0, space: 0, king_dist: 0 };
    assert_eq!(neg.with_positional_factor(60).material, -101);
    let negp = Evaluation { material: 0, pst: -101, pawn_structure: 0, space: 0, king_dist: 0 };
    assert_eq!(negp.with_positional_factor(60).pst, -60);
    assert_eq!(
        a.to_string(),
        "material: 100, piece-square tables: 50, pawn structure: -50, space: 10, king distance: 4, TOTAL: 114"
    );
}

#[test]
fn piece_values() {
    assert_eq!(material_value(PieceType::Queen), 900);
    let knight = ChessPiece { piece_type: PieceType::Knight, color: Color::White, position: Square(6, 0) };
    assert_eq!(piece_value(knight, false), (300, -40));
    let black_pawn = ChessPiece { piece_type: PieceType::Pawn, color: Color::Black, position: Square(4, 6) };
    assert_eq!(piece_value(black_pawn, false), (-100, 20));
    let board = Board::new_game();
    let e4 = ChessMove { move_type: MoveType::Move(PieceType::Pawn), from: Square(4, 1), to: Square(4, 3) };
    let chg = evaluate_chg(&board, e4, false);
    assert_eq!((chg.material, chg.pst), (0, 40));
}

#[test]
fn incremental_evaluation_matches_full_evaluation() {
    let fen = "r3k2r/p1ppqpb1/bn2pnp1/3PN3/1p2P3/2N2Q1p/PPPBBPPP/R3K2R w KQkq - 0 1";
    let moves = [
        ChessMove { move_type: MoveType::Capture(PieceType::Knight), from: Square(4, 4), to: Square(5, 6) },
        ChessMove { move_type: MoveType::CastleMove(CastleType::WhiteShort), from: Square(4, 0), to: Square(6, 0) },
        ChessMove { move_type: MoveType::CastleMove(CastleType::WhiteLong), from: Square(4, 0), to: Square(2, 0) },
        ChessMove { move_type: MoveType::Move(PieceType::Queen), from: Square(5, 2), to: Square(5, 4) },
    ];
    for m in moves {
        let mut board = board_of(fen);
        let before = evaluate_position(&board).unwrap();
        let chg = evaluate_chg(&board, m, is_endgame(&board));
        board.register_move(m).unwrap();
        assert!(!is_endgame(&board));
        let after = evaluate_position(&board).unwrap();
        assert_eq!(after.material, before.material + chg.material);
        assert_eq!(after.pst, before.pst + chg.pst);
    }
    // black's long castling: the rook's table change is taken from white's side
    let mut board = board_of("r3k2r/p1ppqpb1/bn2pnp1/3PN3/1p2P3/2N2Q1p/PPPBBPPP/R3K2R b KQkq - 0 1");
    let m = ChessMove { move_type: MoveType::CastleMove(CastleType::BlackLong), from: Square(4, 7), to: Square(2, 7) };
    let before = evaluate_position(&board).unwrap();
    let chg = evaluate_chg(&board, m, false);
    board.register_move(m).unwrap();
    let after = evaluate_position(&board).unwrap();
    assert_eq!(after.material, before.material + chg.material);
    assert_eq!(after.pst, before.pst + chg.pst - 5);
}

#[test]
fn pieces_record_their_squares_after_moves() {
    let mut board = board_of("r3k2r/p1ppqpb1/bn2pnp1/3PN3/1p2P3/2N2Q1p/PPPBBPPP/R3K2R w KQkq - 0 1");
    let moves = [
        ChessMove { move_type: MoveType::CastleMove(CastleType::WhiteLong), from: Square(4, 0), to: Square(2, 0) },
        ChessMove { move_type: MoveType::Move(PieceType::Pawn), from: Square(2, 6), to: Square(2, 4) },
        ChessMove { move_type: MoveType::EnPassantMove, from: Square(3, 4), to: Square(2, 5) },
        ChessMove { move_type: MoveType::Capture(PieceType::Pawn), from: Square(7, 2), to: Square(6, 1) },
    ];
    for m in moves {
        board.register_move(m).unwrap();
        for rank in 0..8i8 {
            for file in 0..8i8 {
                if let Some(p) = board.get_square(Square(file, rank)) {
                    assert_eq!(p.position, Square(file, rank));
                }
            }
        }
    }
    assert!(board.get_square(Square(2, 4)).is_none());
    assert_eq!(board.get_square(Square(6, 1)).unwrap().piece_type, PieceType::Pawn);
}

#[test]
fn static_evaluation() {
    let board = Board::new_game();
    let eval = evaluate_position(&board).unwrap();
    assert_eq!(eval.material, 0);
    assert_eq!(eval.pst, 0);
    assert_eq!(eval.pawn_structure, 0);
    assert!(!is_endgame(&board));
    assert!(is_endgame(&board_of("4k3/8/8/8/8/8/8/4K3 w - - 0 1")));
}

#[test]
fn pawn_weaknesses() {
    let board = board_of("4k3/8/8/8/8/P7/P1P5/4K3 w - - 0 1");
    assert_eq!(get_pawn_weaknesses_from_board(&board), (1, 0, 2, 0));
    assert_eq!(evaluate_pawn_weaknesses(&board), -150);
}

#[test]
fn written_fen_reads_and_writes_back() {
    for fen in [
        "rnbqkbnr/pp1ppppp/8/8/2pPP3/5N2/PPP2PPP/RNBQKB1R b KQkq d3 0 3",
        "8/8/8/8/8/8/8/4K2k w - - 99 120",
        "r3k2r/8/8/8/8/8/8/R3K2R w Qk - 5 17",
    ] {
        let board = board_of(fen);
        assert_eq!(FenNotation::from(&board).0, fen);
    }
}

#[test]
fn space_evaluation() {
    let board = Board::new_game();
    let space = Space::get_from_board(&board);
    assert_eq!(space.queenside, (3, 3));
    assert_eq!(space.central, (2, 2));
    assert_eq!(space.evaluate(&board), 0);
}

#[test]
fn space_mirrors_by_colour() {
    let board = board_of("rnbqkbnr/pppppppp/8/8/4P3/8/PPPP1PPP/RNBQKBNR b KQkq e3 0 1");
    let space = Space::get_from_board(&board);
    assert_eq!(space.central, (4, 2));
    assert_eq!(space.evaluate(&board), 10);
    let mirrored = board_of("rnbqkbnr/pppp1ppp/8/4p3/8/8/PPPPPPPP/RNBQKBNR w KQkq - 0 1");
    let mirrored_space = Space::get_from_board(&mirrored);
    assert_eq!(mirrored_space.central, (2, 4));
    assert_eq!(mirrored_space.queenside, (space.queenside.1, space.queenside.0));
    assert_eq!(mirrored_space.kingside, (space.kingside.1, space.kingside.0));
    assert_eq!(mirrored_space.evaluate(&mirrored), -10);
    let wing = board_of("6k1/5p2/8/8/8/8/1P6/6K1 w - - 0 1");
    let wing_mirrored = board_of("6k1/1p6/8/8/8/8/5P2/6K1 w - - 0 1");
    assert_eq!(Space::get_from_board(&wing).evaluate(&wing), -50);
    assert_eq!(Space::get_from_board(&wing_mirrored).evaluate(&wing_mirrored), 50);
}

#[test]
fn pawn_attacks() {
    let board = board_of("4k3/8/8/3p4/8/8/8/4K3 w - - 0 1");
    assert!(is_attacked_by_pawn(&board, Square(4, 3)));
    assert!(!is_attacked_by_pawn(&board, Square(3, 3)));
}

#[test]
fn move_ordering_puts_promotions_and_captures_first() {
    let board = board_of("1n2k3/P7/8/8/8/8/8/4K3 w - - 0 1");
    let ordered = get_ordered_moves(&board);
    assert_eq!(ordered.len(), Moves::get_all_moves(&board, board.turn).0.len());
    assert!(matches!(ordered[0].move_type, MoveType::PromotionCapture(_)));
    assert!(matches!(ordered[4].move_type, MoveType::PromotionMove(_)));
    assert!(is_forcing(ordered[0]));
}

#[test]
fn search_finds_mate_in_one_and_restores_counts() {
    let board = board_of("6k1/5ppp/8/8/8/8/8/R5K1 w - - 0 1");
    let mut rep_map: BTreeMap<u64, u8> = BTreeMap::new();
    rep_map.insert(42, 2);
    let mut report = Vec::new();
    let (payload, count) =
        search_game_tree(&board, 0, 2, i32::MAX, board.hash_board(), &mut rep_map, &mut report)
            .unwrap();
    assert!(count >= 1);
    assert_eq!(
        payload.played_move,
        Some(ChessMove { move_type: MoveType::Move(PieceType::Rook), from: Square(0, 0), to: Square(0, 7) })
    );
    assert!(rep_map.iter().all(|(k, v)| if *k == 42 { *v == 2 } else { *v == 0 }));
    assert!(!report.is_empty());
}

#[test]
fn search_of_checkmated_position() {
    let board = board_of("R5k1/5ppp/8/8/8/8/8/6K1 b - - 0 1");
    let mut rep_map = BTreeMap::new();
    let (payload, count) =
        search_game_tree(&board, 0, 2, i32::MIN, board.hash_board(), &mut rep_map, &mut Vec::new())
            .unwrap();
    assert_eq!(count, 1);
    assert!(payload.played_move.is_none());
    assert_eq!(payload.eval.material, 25000);
    let mut table: BTreeMap<u64, u8> = BTreeMap::new();
    table.insert(7, 0);
    table.insert(9, 2);
    let (payload, count) =
        search_game_tree(&board, 3, 0, i32::MIN, board.hash_board(), &mut table, &mut Vec::new())
            .unwrap();
    assert_eq!(count, 1);
    assert!(payload.line.is_empty());
    assert_eq!(payload.eval.total(), 25000 - 300);
    assert_eq!(table.len(), 2);
    assert_eq!(table.get(&7), Some(&0));
    assert_eq!(table.get(&9), Some(&2));
    let stalemate = board_of("7k/5Q2/6K1/8/8/8/8/8 b - - 0 1");
    let (payload, _) =
        search_game_tree(&stalemate, 0, 0, i32::MIN, stalemate.hash_board(), &mut table, &mut Vec::new())
            .unwrap();
    assert_eq!(payload.eval.total(), 0);
}

#[test]
fn better_move_by_side() {
    let high = MovePayload::new(None, Evaluation { material: 5, pst: 0, pawn_structure: 0, space: 0, king_dist: 0 }, Vec::new());
    let low = MovePayload::new(None, Evaluation::new(), Vec::new());
    assert_eq!(high.clone().better_move(low.clone(), Color::White).eval.total(), 5);
    assert_eq!(high.clone().better_move(low.clone(), Color::Black).eval.total(), 0);
    assert_eq!(MovePayload::with_turn(Color::White).eval.total(), 5 * -32768);
}

#[test]
fn choose_move_from_book() {
    let board = Board::new_game();
    let mut book = OpeningBook(Vec::new());
    book.add_move(
        "rnbqkbnr/pppppppp/8/8/8/8/PPPPPPPP/RNBQKBNR w KQkq".to_string(),
        "e4".to_string(),
        10,
    );
    let chosen = choose_move(&board, BTreeMap::new(), &book, &mut Vec::new());
    assert_eq!(
        chosen,
        Some(ChessMove { move_type: MoveType::Move(PieceType::Pawn), from: Square(4, 1), to: Square(4, 3) })
    );
}

#[test]
fn book_building_step() {
    let mut book = OpeningBook(Vec::new());
    let fen = FenNotation(START.into());
    let rare = MoveDescription { san: "a3".into(), white: 1, draws: 1, black: 1 };
    assert!(matches!(record_book_move(&mut book, &fen, &rare), Some(Ok(None))));
    assert!(book.0.is_empty());
    let popular = MoveDescription { san: "e4".into(), white: 1000, draws: 1000, black: 500 };
    let next = record_book_move(&mut book, &fen, &popular).unwrap().unwrap().unwrap();
    assert_eq!(next.0, "rnbqkbnr/pppppppp/8/8/4P3/8/PPPP1PPP/RNBQKBNR b KQkq e3 0 1");
    assert_eq!(book.0.len(), 1);
    assert_eq!(book.0[0].1, vec![("e4".to_string(), 2500)]);
    assert_eq!(popular.popularity(), Some(2500));
    let huge = MoveDescription { san: "e4".into(), white: u32::MAX, draws: 1, black: 0 };
    assert_eq!(huge.popularity(), None);
    assert!(record_book_move(&mut book, &fen, &huge).is_none());
    let unreadable = MoveDescription { san: "Zz9".into(), white: 3000, draws: 0, black: 0 };
    assert!(matches!(
        record_book_move(&mut book, &fen, &unreadable),
        Some(Err(OpeningBookError::MoveParseError(_)))
    ));
    assert_eq!(book.0.len(), 1);
    assert_eq!(book.0[0].1.len(), 2);
    assert_eq!(book.0[0].1[1], ("Zz9".to_string(), 3000));
}

#[test]
fn book_keeps_one_entry_per_position() {
    let mut book = OpeningBook(Vec::new());
    book.add_move("a w KQkq".to_string(), "e4".to_string(), 5);
    book.add_move("b b KQkq".to_string(), "e5".to_string(), 6);
    book.add_move("a w KQkq".to_string(), "d4".to_string(), 7);
    assert_eq!(book.0.len(), 2);
    assert_eq!(book.0[0].0, "a w KQkq");
    assert_eq!(book.0[0].1, vec![("e4".to_string(), 5), ("d4".to_string(), 7)]);
    assert_eq!(book.get(&"b b KQkq".to_string()).unwrap(), &vec![("e5".to_string(), 6)]);
    assert!(book.get(&"c w -".to_string()).is_none());
}

#[test]
fn parse_errors() {
    let res = parse_move(FenNotation(START.into()), "Zz9".to_string());
    assert_eq!(res, Err(MoveParseError::InvalidMove));
    let res = parse_move(FenNotation("8/8/8/8/8/8/8/8 w X - 0 1".into()), "e4".to_string());
    assert_eq!(res, Err(MoveParseError::BoardError(BoardError::ConversionFailure)));
    // a pawn step followed by a check sign names no square
    assert!(parse_move_checked(&FenNotation(START.into()), &"e4+".to_string()).is_none());
    // no legal move fits
    assert!(parse_move_checked(&FenNotation(START.into()), &"e5".to_string()).is_none());
    let black_castle = parse_move(
        FenNotation("r3k2r/8/8/8/8/8/8/R3K2R b KQkq - 0 1".into()),
        "O-O-O".to_string(),
    );
    assert_eq!(
        black_castle.unwrap(),
        ChessMove { move_type: MoveType::CastleMove(CastleType::BlackLong), from: Square(4, 7), to: Square(2, 7) }
    );
}

#[test]
fn generated_moves_can_be_played() {
    let fens = [
        START,
        "r3k2r/p1ppqpb1/bn2pnp1/3PN3/1p2P3/2N2Q1p/PPPBBPPP/R3K2R w KQkq - 0 1",
        "r3k2r/p1ppqpb1/bn2pnp1/3PN3/1p2P3/2N2Q1p/PPPBBPPP/R3K2R b KQkq - 0 1",
        "rnbqkbnr/pp1ppppp/8/2pP4/8/8/PPP1PPPP/RNBQKBNR w KQkq c6 0 2",
        "8/P6k/8/8/8/8/6Kp/8 w - - 0 1",
        "8/P6k/8/8/8/8/6Kp/8 b - - 0 1",
    ];
    for fen in fens {
        let board = board_of(fen);
        let moves = Moves::get_all_moves(&board, board.turn);
        assert!(!moves.0.is_empty());
        for m in moves.0 {
            let mut next = board;
            assert!(next.can_register_exec(m));
            assert!(next.register_move(m).is_ok());
        }
    }
}

/// Whether a board is sound: pieces on their squares, kings where recorded, mating
/// material counted, castling rights with king and rook home, en passant target empty
/// behind a pawn of the side not to move.
fn is_sound(board: &Board) -> bool {
    let mut material = (0u32, 0u32);
    for rank in 0..8i8 {
        for file in 0..8i8 {
            if let Some(p) = board.get_square(Square(file, rank)) {
                if p.position != Square(file, rank) {
                    return false;
                }
                let pts = p.mating_material_points() as u32;
                match p.color {
                    Color::White => material.0 += pts,
                    Color::Black => material.1 += pts,
                }
                if p.piece_type == PieceType::King {
                    let recorded = match p.color {
                        Color::White => board.king_positions.0,
                        Color::Black => board.king_positions.1,
                    };
                    if recorded != Square(file, rank) {
                        return false;
                    }
                }
            }
        }
    }
    if material != (board.mating_material.0 as u32, board.mating_material.1 as u32) {
        return false;
    }
    let home = |sq: Square, t: PieceType, c: Color| match board.get_square(sq) {
        Some(p) => p.piece_type == t && p.color == c,
        None => false,
    };
    let c = board.castling;
    if c.white_short && !(home(Square(4, 0), PieceType::King, Color::White) && home(Square(7, 0), PieceType::Rook, Color::White)) {
        return false;
    }
    if c.white_long && !(home(Square(4, 0), PieceType::King, Color::White) && home(Square(0, 0), PieceType::Rook, Color::White)) {
        return false;
    }
    if c.black_short && !(home(Square(4, 7), PieceType::King, Color::Black) && home(Square(7, 7), PieceType::Rook, Color::Black)) {
        return false;
    }
    if c.black_long && !(home(Square(4, 7), PieceType::King, Color::Black) && home(Square(0, 7), PieceType::Rook, Color::Black)) {
        return false;
    }
    if let Some(t) = board.en_passant_square {
        let behind = match board.turn {
            Color::White => Square(t.0, t.1 - 1),
            Color::Black => Square(t.0, t.1 + 1),
        };
        if board.get_square(t).is_some() || !home(behind, PieceType::Pawn, board.turn.opp()) {
            return false;
        }
    }
    true
}

#[test]
fn positions_stay_sound_in_play() {
    for fen in [START, "r3k2r/p1ppqpb1/bn2pnp1/3PN3/1p2P3/2N2Q1p/PPPBBPPP/R3K2R w KQkq - 0 1"] {
        let board = board_of(fen);
        assert!(is_sound(&board));
        let moves = Moves::get_all_moves(&board, board.turn);
        for m in moves.0 {
            let mut next = board;
            next.register_move(m).unwrap();
            assert!(is_sound(&next));
            let replies = Moves::get_all_moves(&next, next.turn);
            for r in replies.0 {
                let mut after = next;
                after.register_move(r).unwrap();
                assert!(is_sound(&after));
            }
        }
    }
}

/// Whether two boards agree on every field.
fn same_board(a: &Board, b: &Board) -> bool {
    a.board == b.board
        && a.turn == b.turn
        && a.castling == b.castling
        && a.en_passant_square == b.en_passant_square
        && a.half_move_timer_50 == b.half_move_timer_50
        && a.full_move_number == b.full_move_number
        && a.mating_material == b.mating_material
        && a.king_positions == b.king_positions
}

#[test]
fn played_positions_read_back_from_fen() {
    let mut board = Board::new_game();
    for _ in 0..12 {
        let fen = FenNotation::from(&board);
        let read = Board::try_from(FenNotation(fen.0.clone())).unwrap();
        assert!(same_board(&read, &board));
        let moves = Moves::get_all_moves(&board, board.turn);
        let m = moves.0[moves.0.len() / 2];
        board.register_move(m).unwrap();
    }
}

#[test]
fn generated_moves_update_the_hash() {
    let board = board_of("r3k2r/p1ppqpb1/bn2pnp1/3PN3/1p2P3/2N2Q1p/PPPBBPPP/R3K2R w KQkq - 0 1");
    let moves = Moves::get_all_moves(&board, board.turn);
    let mut checked = 0;
    for m in moves.0 {
        let double_step = matches!(m.move_type, MoveType::Move(PieceType::Pawn))
            && (m.to.1 - m.from.1 == 2 || m.to.1 - m.from.1 == -2);
        let mut next = board;
        next.register_move(m).unwrap();
        if !double_step {
            assert_eq!(hash_with_move(board.hash_board(), &board, m), next.hash_board());
            checked += 1;
        }
    }
    assert!(checked > 40);
}

#[test]
fn hash_ignores_clocks_and_material() {
    let a = board_of("r3k2r/p1ppqpb1/bn2pnp1/3PN3/1p2P3/2N2Q1p/PPPBBPPP/R3K2R w KQkq - 0 1");
    let mut b = a;
    b.half_move_timer_50 = 17;
    b.full_move_number = 40;
    b.mating_material = (1, 2);
    assert_eq!(a.hash_board(), b.hash_board());
    b.turn = Color::Black;
    assert_ne!(a.hash_board(), b.hash_board());
}

#[test]
fn piece_values_mirror_by_colour() {
    let white = ChessPiece { piece_type: PieceType::Pawn, color: Color::White, position: Square(4, 1) };
    assert_eq!(piece_value(white, false), (100, -20));
    for t in [PieceType::Pawn, PieceType::Knight, PieceType::Bishop, PieceType::Rook, PieceType::Queen, PieceType::King] {
        for rank in 0..8i8 {
            for file in 0..8i8 {
                let p = ChessPiece { piece_type: t, color: Color::White, position: Square(file, rank) };
                let q = ChessPiece { piece_type: t, color: Color::Black, position: Square(file, 7 - rank) };
                for e in [false, true] {
                    let (m, v) = piece_value(p, e);
                    assert_eq!(piece_value(q, e), (-m, -v));
                }
            }
        }
    }
}

#[test]
fn square_names_read_back() {
    for rank in 0..8i8 {
        for file in 0..8i8 {
            let sq = Square(file, rank);
            assert_eq!(Square::try_from(sq.to_text().as_str()).unwrap(), sq);
        }
    }
}

#[test]
fn move_notation() {
    let m = ChessMove { move_type: MoveType::PromotionCapture(PromotedPieceType::Queen), from: Square(1, 6), to: Square(2, 7) };
    assert_eq!(m.to_string(), "bxc8=Q");
    let m = ChessMove { move_type: MoveType::Capture(PieceType::Knight), from: Square(5, 2), to: Square(4, 4) };
    assert_eq!(m.to_string(), "Nxe5");
    let m = ChessMove { move_type: MoveType::CastleMove(CastleType::WhiteLong), from: Square(4, 0), to: Square(2, 0) };
    assert_eq!(m.to_string(), "O-O-O");
    assert_eq!(Square::try_from("e3").unwrap(), Square(4, 2));
    assert!(Square::try_from("e33").is_err());
    assert_eq!(Square(4, 2).to_text(), "e3");
    assert_eq!(PieceType::try_from("Q").unwrap(), PieceType::Queen);
    assert!(PieceType::try_from("x").is_err());
    assert_eq!(PromotedPieceType::try_from("N").unwrap(), PromotedPieceType::Knight);
    assert_eq!(PieceType::Knight.to_string(), "N");
    assert_eq!(PieceType::Pawn.to_string(), "");
    assert_eq!(Color::White.to_string(), "White");
    assert_eq!(Color::White.opp(), Color::Black);
    let p = ChessPiece::try_from(('q', Square(3, 7))).unwrap();
    assert_eq!((p.piece_type, p.color), (PieceType::Queen, Color::Black));
    assert!(ChessPiece::try_from(('x', Square(3, 7))).is_err());
}

#[test]
fn game_endings() {
    let mate = board_of("R5k1/5ppp/8/8/8/8/8/6K1 b - - 0 1");
    assert_eq!(game_end(&mate, 1), Some(GameEnd::Checkmate(Color::White)));
    let stalemate = board_of("7k/5Q2/6K1/8/8/8/8/8 b - - 0 1");
    assert_eq!(game_end(&stalemate, 1), Some(GameEnd::Stalemate));
    let bare = board_of("7k/8/6K1/8/8/8/8/8 b - - 0 1");
    assert_eq!(game_end(&bare, 1), Some(GameEnd::InsufficientMaterial));
    let start = Board::new_game();
    assert_eq!(game_end(&start, 3), Some(GameEnd::ThreefoldRepetition));
    assert_eq!(game_end(&start, 1), None);
    assert!(GameState::Ongoing.is_ongoing());
    assert!(GameState::Done("Draw".to_string()).is_done());
}

#[test]
fn settings_are_brought_into_range() {
    let s = AppSettings { eval_print: true, pruning: false, positional_value_factor: 250, search_depth: 0 };
    let n = s.normalized();
    assert_eq!((n.positional_value_factor, n.search_depth, n.eval_print, n.pruning), (100, 1, true, false));
    let s = AppSettings { eval_print: false, pruning: true, positional_value_factor: -5, search_depth: 4 };
    assert_eq!(s.normalized().positional_value_factor, 0);
    assert_eq!(s.normalized().search_depth, 4);
}

#[test]
fn key_table_places_each_draw() {
    let mut draws = [0u64; 837];
    for (n, d) in draws.iter_mut().enumerate() {
        *d = n as u64 * 3 + 1;
    }
    let keys = ZobristBitmasks::from_draws(&draws);
    assert_eq!(keys.square[0][0], 1);
    assert_eq!(keys.square[3][5], 44 * 3 + 1);
    assert_eq!(keys.square[63][12], 831 * 3 + 1);
    assert_eq!(keys.additional[0], 832 * 3 + 1);
    assert_eq!(keys.additional[4], 836 * 3 + 1);
    let fresh = ZobristBitmasks::new();
    assert_eq!(fresh.square.len(), 64);
}

#[test]
fn pinned_rook_stays_on_its_line() {
    let board = board_of("k3r3/8/8/8/8/8/4R3/4K3 w - - 0 1");
    let moves = Moves::get_all_moves(&board, Color::White).0;
    assert_eq!(moves.len(), 10);
    for m in moves.iter() {
        if m.from == Square(4, 1) {
            assert_eq!(m.to.0, 4);
        }
    }
}

#[test]
fn double_check_leaves_only_king_moves() {
    let board = board_of("4k3/8/8/8/1b6/8/8/r3K2N w - - 0 1");
    let moves = Moves::get_all_moves(&board, Color::White).0;
    assert_eq!(moves.len(), 2);
    for m in moves.iter() {
        assert_eq!(m.from, Square(4, 0));
    }
}

fn has_move(moves: &[ChessMove], from: Square, to: Square) -> bool {
    moves.iter().any(|m| m.from == from && m.to == to)
}

#[test]
fn en_passant_capture_is_generated() {
    let board = board_of("4k3/8/8/3pP3/8/8/8/4K3 w - d6 0 2");
    let moves = Moves::get_all_moves(&board, Color::White).0;
    assert!(moves.iter().any(|m| m.move_type == MoveType::EnPassantMove
        && m.from == Square(4, 4)
        && m.to == Square(3, 5)));
}

#[test]
fn en_passant_capture_opening_the_rank_is_refused() {
    let board = board_of("8/8/8/K2pP2r/8/8/8/4k3 w - d6 0 2");
    let moves = Moves::get_all_moves(&board, Color::White).0;
    assert!(!has_move(&moves, Square(4, 4), Square(3, 5)));
    assert!(has_move(&moves, Square(4, 4), Square(4, 5)));
}

#[test]
fn en_passant_capture_opening_a_diagonal_is_given() {
    let board = board_of("4k3/5b2/8/3pP3/8/1K6/8/8 w - d6 0 2");
    let moves = Moves::get_all_moves(&board, Color::White).0;
    assert!(has_move(&moves, Square(4, 4), Square(3, 5)));
}

#[test]
fn pawn_marked_by_en_passant_pin_may_leave_the_rank() {
    let board = board_of("4k3/8/8/3Pp3/K1P4r/8/8/8 w - e6 0 2");
    let moves = Moves::get_all_moves(&board, Color::White).0;
    assert!(has_move(&moves, Square(2, 3), Square(2, 4)));
}

#[test]
fn space_score_with_central_kings_counts_the_centre() {
    let board = board_of("rnbqkbnr/pppppppp/8/8/4P3/8/PPPP1PPP/RNBQKBNR b KQkq e3 0 1");
    let space = Space::get_from_board(&board);
    assert_eq!(space.evaluate(&board), 5 * (space.central.0 as i16 - space.central.1 as i16));
    assert_eq!(space.evaluate(&board), 10);
}

#[test]
fn played_game_reads_back_from_its_fen() {
    let mut board = Board::new_game();
    for _ in 0..12 {
        let moves = Moves::get_all_moves(&board, board.turn).0;
        let m = moves[moves.len() / 2];
        board.register_move(m).unwrap();
        let read = Board::try_from(FenNotation::from(&board)).unwrap();
        assert_eq!(read.board, board.board);
        assert_eq!(read.turn, board.turn);
        assert_eq!(read.castling, board.castling);
        assert_eq!(read.en_passant_square, board.en_passant_square);
        assert_eq!(read.half_move_timer_50, board.half_move_timer_50);
        assert_eq!(read.full_move_number, board.full_move_number);
        assert_eq!(read.mating_material, board.mating_material);
        assert_eq!(read.king_positions, board.king_positions);
    }
}

#[test]
fn san_reads_the_generated_move_it_names() {
    let read = parse_move_checked(&FenNotation(START.into()), &"Nc3".to_string());
    assert_eq!(
        read,
        Some(Ok(ChessMove { move_type: MoveType::Move(PieceType::Knight), from: Square(1, 0), to: Square(2, 2) }))
    );
    let board = board_of(START);
    let moves = Moves::get_all_moves(&board, Color::White).0;
    assert!(moves.contains(&read.unwrap().unwrap()));
    assert!(parse_move_checked(&FenNotation(START.into()), &"Ke2".to_string()).is_none());
}

#[test]
fn canonical_fen_comes_back_unchanged() {
    let fen = "rnbqkbnr/pp1ppppp/8/8/2pPP3/5N2/PPP2PPP/RNBQKB1R b KQkq d3 0 3";
    assert_eq!(FenNotation::from(&board_of(fen)).0, fen);
}
