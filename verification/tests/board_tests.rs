use otus::board::Board;
use otus::models::Color::{Black, White};
use otus::models::File::{A, B, C, D, E, F, G, H};
use otus::models::PieceType::{Bishop, King, Knight, Pawn, Queen, Rook};
use otus::models::Rank::{_1, _2, _3, _4, _5, _6, _7, _8};
use otus::models::{File, Move, Piece, PieceType, Rank};
use otus::move_checking::{apply_move, get_legal_move_from_move, is_move_legal};
use otus::perft::perft;

#[test]
fn test_fen_default_board() {
    let board: Board =
        Board::from_fen("rnbqkbnr/pppppppp/8/8/8/8/PPPPPPPP/RNBQKBNR w KQkq - 0 1").unwrap();

    let back_rank: [(File, PieceType); 8] = [
        (A, Rook),
        (B, Knight),
        (C, Bishop),
        (D, Queen),
        (E, King),
        (F, Bishop),
        (G, Knight),
        (H, Rook),
    ];
    for (file, piece) in back_rank {
        assert_eq!(board.get_piece(file, _1), Some(Piece(piece, White)));
        assert_eq!(board.get_piece(file, _2), Some(Piece(Pawn, White)));
        assert!(board.get_piece(file, _3).is_none());
        assert!(board.get_piece(file, _4).is_none());
        assert!(board.get_piece(file, _5).is_none());
        assert!(board.get_piece(file, _6).is_none());
        assert_eq!(board.get_piece(file, _7), Some(Piece(Pawn, Black)));
        assert_eq!(board.get_piece(file, _8), Some(Piece(piece, Black)));
    }

    assert_eq!(board.active_player, White);

    assert!(board.has_kingside_castling_rights(White));
    assert!(board.has_queenside_castling_rights(White));
    assert!(board.has_kingside_castling_rights(Black));
    assert!(board.has_queenside_castling_rights(Black));
}

#[test]
fn test_fen_board() {
    let board: Board =
        Board::from_fen("r1bk3r/p2pBpNp/n4n2/1p1NP2P/6P1/3P4/P1P1K3/q5b1 b - e3 0 1").unwrap();

    let expected: [(File, Rank, Option<Piece>); 64] = [
        (A, _1, Some(Piece(Queen, Black))),
        (A, _2, Some(Piece(Pawn, White))),
        (A, _3, None),
        (A, _4, None),
        (A, _5, None),
        (A, _6, Some(Piece(Knight, Black))),
        (A, _7, Some(Piece(Pawn, Black))),
        (A, _8, Some(Piece(Rook, Black))),
        (B, _1, None),
        (B, _2, None),
        (B, _3, None),
        (B, _4, None),
        (B, _5, Some(Piece(Pawn, Black))),
        (B, _6, None),
        (B, _7, None),
        (B, _8, None),
        (C, _1, None),
        (C, _2, Some(Piece(Pawn, White))),
        (C, _3, None),
        (C, _4, None),
        (C, _5, None),
        (C, _6, None),
        (C, _7, None),
        (C, _8, Some(Piece(Bishop, Black))),
        (D, _1, None),
        (D, _2, None),
        (D, _3, Some(Piece(Pawn, White))),
        (D, _4, None),
        (D, _5, Some(Piece(Knight, White))),
        (D, _6, None),
        (D, _7, Some(Piece(Pawn, Black))),
        (D, _8, Some(Piece(King, Black))),
        (E, _1, None),
        (E, _2, Some(Piece(King, White))),
        (E, _3, None),
        (E, _4, None),
        (E, _5, Some(Piece(Pawn, White))),
        (E, _6, None),
        (E, _7, Some(Piece(Bishop, White))),
        (E, _8, None),
        (F, _1, None),
        (F, _2, None),
        (F, _3, None),
        (F, _4, None),
        (F, _5, None),
        (F, _6, Some(Piece(Knight, Black))),
        (F, _7, Some(Piece(Pawn, Black))),
        (F, _8, None),
        (G, _1, Some(Piece(Bishop, Black))),
        (G, _2, None),
        (G, _3, None),
        (G, _4, Some(Piece(Pawn, White))),
        (G, _5, None),
        (G, _6, None),
        (G, _7, Some(Piece(Knight, White))),
        (G, _8, None),
        (H, _1, None),
        (H, _2, None),
        (H, _3, None),
        (H, _4, None),
        (H, _5, Some(Piece(Pawn, White))),
        (H, _6, None),
        (H, _7, Some(Piece(Pawn, Black))),
        (H, _8, Some(Piece(Rook, Black))),
    ];
    for (file, rank, piece) in expected {
        assert_eq!(board.get_piece(file, rank), piece);
    }

    assert_eq!(board.active_player, Black);

    assert!(!board.has_kingside_castling_rights(White));
    assert!(!board.has_queenside_castling_rights(White));
    assert!(!board.has_kingside_castling_rights(Black));
    assert!(!board.has_queenside_castling_rights(Black));
}

#[test]
fn test_fen_output() {
    let board = Board::default();
    let fen = board.to_fen();
    assert_eq!(fen, "rnbqkbnr/pppppppp/8/8/8/8/PPPPPPPP/RNBQKBNR w KQkq - 0 1");
}

#[test]
fn test_illegal_pawn_move() {
    let board = Board::from_fen("8/2p5/3p4/KP5r/1R2Pp1k/8/6P1/8 b - e3 0 1").unwrap();

    assert!(!is_move_legal(
        &board,
        &Move::from_uci_string(&board, "c7b6").unwrap()
    ));
}

#[test]
fn test_queen_promotion() {
    let board = Board::from_fen("r3k2r/Pppp1ppp/1b3nbN/nP6/BBP1P3/q4N2/Pp1P1RPP/R2Q2K1 b kq - 1 1")
        .unwrap();
    let mv =
        get_legal_move_from_move(&board, &Move::from_uci_string(&board, "b2a1q").unwrap()).unwrap();

    assert!(board.get_legal_moves().contains(&mv));
}

#[test]
fn test_perft_small_counts() {
    let mut board = Board::from_fen("8/2p5/3p4/KP5r/1R3p1k/8/4P1P1/8 w - - 0 1").unwrap();
    assert_eq!(perft(&mut board, 1), 14);
    let mut board = Board::from_fen("8/2p5/3p4/KP5r/1R3p1k/8/4P1P1/8 w - - 0 1").unwrap();
    assert_eq!(perft(&mut board, 2), 191);
    let mut board = Board::from_fen("8/2p5/3p4/KP5r/1R3p1k/8/4P1P1/8 w - - 0 1").unwrap();
    assert_eq!(perft(&mut board, 3), 2812);
}

#[test]
fn test_perft_starting_depth_three() {
    let mut board = Board::default();
    assert_eq!(perft(&mut board, 1), 20);
    let mut board = Board::default();
    assert_eq!(perft(&mut board, 2), 400);
    let mut board = Board::default();
    assert_eq!(perft(&mut board, 3), 8902);
}

#[test]
fn test_perft_kiwipete_depth_two() {
    let mut board =
        Board::from_fen("r3k2r/p1ppqpb1/bn2pnp1/3PN3/1p2P3/2N2Q1p/PPPBBPPP/R3K2R w KQkq - 0 1")
            .unwrap();
    assert_eq!(perft(&mut board, 1), 48);
    let mut board =
        Board::from_fen("r3k2r/p1ppqpb1/bn2pnp1/3PN3/1p2P3/2N2Q1p/PPPBBPPP/R3K2R w KQkq - 0 1")
            .unwrap();
    assert_eq!(perft(&mut board, 2), 2039);
}

#[test]
fn test_fen_parse_errors() {
    assert!(Board::from_fen("").is_err());
    assert!(Board::from_fen("rnbqkbnr/pppppppp/8/8/8/8/PPPPPPPP/RNBQKBNR w KQkq -").is_err());
    assert!(Board::from_fen("rnbqkbnr/pppppppp/8/8/8/8/PPPPPPPP w KQkq - 0 1").is_err());
    assert!(Board::from_fen("rnbqkbnr/pppppppp/9/8/8/8/PPPPPPPP/RNBQKBNR w KQkq - 0 1").is_err());
    assert!(Board::from_fen("rnbqkbnr/pppppppp/8/8/8/8/PPPPPPPP/RNBQKBNX w KQkq - 0 1").is_err());
    assert!(Board::from_fen("rnbqkbnr/pppppppp/8/8/8/8/PPPPPPPP/RNBQKBNR x KQkq - 0 1").is_err());
    assert!(Board::from_fen("rnbqkbnr/pppppppp/8/8/8/8/PPPPPPPP/RNBQKBNR w KXkq - 0 1").is_err());
    assert!(Board::from_fen("rnbqkbnr/pppppppp/8/8/8/8/PPPPPPPP/RNBQKBNR w KQkq z9 0 1").is_err());
}

#[test]
fn test_uci_move_parse_errors() {
    let board = Board::default();
    assert!(Move::from_uci_string(&board, "e2").is_err());
    assert!(Move::from_uci_string(&board, "z2e4").is_err());
    assert!(Move::from_uci_string(&board, "e2e9").is_err());
    assert!(Move::from_uci_string(&board, "a7a8x").is_err());
}

#[test]
fn test_perf_starting_pos() {
    let mut board = Board::default();
    let count = perft(&mut board, 4);

    assert_eq!(count, 197281);
}

#[test]
fn test_perf_kiwipete() {
    let mut board =
        Board::from_fen("r3k2r/p1ppqpb1/bn2pnp1/3PN3/1p2P3/2N2Q1p/PPPBBPPP/R3K2R w KQkq - 0 1")
            .unwrap();

    assert_eq!(perft(&mut board, 3), 97862);
}

#[test]
fn test_perf_3() {
    let mut board = Board::from_fen("8/2p5/3p4/KP5r/1R3p1k/8/4P1P1/8 w - - 0 1").unwrap();

    assert_eq!(perft(&mut board, 1), 14);
    assert_eq!(perft(&mut board, 2), 191);
    assert_eq!(perft(&mut board, 3), 2812);
    assert_eq!(perft(&mut board, 4), 43238);
}

#[test]
fn test_perf_4() {
    let mut board =
        Board::from_fen("r3k2r/Pppp1ppp/1b3nbN/nP6/BBP1P3/q4N2/Pp1P2PP/R2Q1RK1 w kq - 0 1")
            .unwrap();

    assert_eq!(perft(&mut board, 1), 6);
    assert_eq!(perft(&mut board, 2), 264);
    assert_eq!(perft(&mut board, 3), 9467);
}

#[test]
fn test_perf_5() {
    let mut board =
        Board::from_fen("rnbq1k1r/pp1Pbppp/2p5/8/2B5/8/PPP1NnPP/RNBQK2R w KQ - 1 8 ").unwrap();

    assert_eq!(perft(&mut board, 3), 62379);
}

#[test]
fn test_perf_6() {
    let mut board =
        Board::from_fen("r4rk1/1pp1qppp/p1np1n2/2b1p1B1/2B1P1b1/P1NP1N2/1PP1QPPP/R4RK1 w - - 0 10")
            .unwrap();

    assert_eq!(perft(&mut board, 3), 89890);
}

#[test]
fn test_unmake_restores_en_passant_target() {
    let mut board = Board::from_fen("8/2p5/3p4/KP5r/1R2Pp1k/8/6P1/8 b - e3 0 1").unwrap();
    let initial_fen = board.to_fen();
    for mv in board.get_legal_moves() {
        board.make_move(&mv);
        board.unmake_move(&mv);
        assert_eq!(board.to_fen(), initial_fen);
    }
}

#[test]
fn test_king_move_clears_only_held_rights() {
    let board = Board::from_fen("4k3/8/8/8/8/8/8/R3K3 w Q - 0 1").unwrap();
    let result = apply_move(&board, &Move::from_uci_string(&board, "e1e2").unwrap()).unwrap();
    assert!(!result.has_kingside_castling_rights(otus::models::Color::White));
    assert!(!result.has_queenside_castling_rights(otus::models::Color::White));
    assert_eq!(result.castling_rights, 0);
}

#[test]
fn test_promotion_rejected_off_last_rank() {
    let board = Board::from_fen("4k3/8/8/8/8/8/4P3/4K3 w - - 0 1").unwrap();
    let mv = Move::from_uci_string(&board, "e2e3q").unwrap();
    assert!(!is_move_legal(&board, &mv));
    assert!(is_move_legal(&board, &Move::from_uci_string(&board, "e2e3").unwrap()));
}
