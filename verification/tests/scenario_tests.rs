use otus::board::Board;
use otus::board_utils::is_square_attacked;
use otus::hashing::get_zobrist_hash;
use otus::models::File::{A, E};
use otus::models::Rank::{_1, _2, _3, _8};
use otus::models::{Color, GameState, PieceType, Square};
use otus::perft::perft_rec;
use otus::uci::process_moves_list;

#[test]
fn test_fen_round_trip() {
    let records = [
        "rnbqkbnr/pppppppp/8/8/8/8/PPPPPPPP/RNBQKBNR w KQkq - 0 1",
        "r3k2r/p1ppqpb1/bn2pnp1/3PN3/1p2P3/2N2Q1p/PPPBBPPP/R3K2R w KQkq - 0 1",
        "8/2p5/3p4/KP5r/1R2Pp1k/8/6P1/8 b - e3 0 1",
        "6kb/8/8/8/8/8/8/R3K2R b KQ - 0 1",
        "4k3/8/8/8/8/8/8/4K3 w - - 0 1",
    ];
    for record in records {
        let board = Board::from_fen(record).unwrap();
        assert_eq!(board.to_fen(), record);
        let reparsed = Board::from_fen(&board.to_fen()).unwrap();
        assert_eq!(reparsed.to_fen(), record);
    }
}

#[test]
fn test_fen_parse_render_scenario() {
    let board =
        Board::from_fen("rnbqkbnr/pppppppp/8/8/8/8/PPPPPPPP/RNBQKBNR w KQkq - 0 1").unwrap();
    assert_eq!(board.get_piece(A, _1), Some(otus::models::Piece(PieceType::Rook, Color::White)));
    assert_eq!(board.get_piece(A, _2), Some(otus::models::Piece(PieceType::Pawn, Color::White)));
    assert_eq!(board.get_piece(A, _3), None);
    assert_eq!(board.get_piece(E, _8), Some(otus::models::Piece(PieceType::King, Color::Black)));
    assert_eq!(board.active_player, Color::White);
    assert_eq!(board.castling_rights, 0b1111);
    assert!(board.en_passant_target.is_none());
    let fen = board.to_fen();
    let fields: Vec<&str> = fen.split(' ').collect();
    assert_eq!(fields[0], "rnbqkbnr/pppppppp/8/8/8/8/PPPPPPPP/RNBQKBNR");
    assert_eq!(fields[1], "w");
    assert_eq!(fields[2], "KQkq");
    assert_eq!(fields[3], "-");
}

#[test]
fn test_make_unmake_round_trip() {
    let mut board = Board::from_fen("8/2p5/3p4/KP5r/1R3p1k/8/4P1P1/8 w - - 0 1").unwrap();
    let initial_fen = board.to_fen();
    for mv in board.get_legal_moves() {
        let en_passant_target = board.en_passant_target;
        board.make_move(&mv);
        perft_rec(&mut board, 2);
        board.unmake_move(&mv);
        board.en_passant_target = en_passant_target;
        assert_eq!(board.to_fen(), initial_fen);
    }
}

#[test]
fn test_attack_symmetry_under_null_pass() {
    let board = Board::from_fen("8/2p5/3p4/KP5r/1R2Pp1k/8/6P1/8 b - e3 0 1").unwrap();
    let mut cleared = board;
    cleared.en_passant_target = None;
    for index in 0..64u8 {
        let file = otus::models::File::from_i8((index % 8) as i8).unwrap();
        let rank = otus::models::Rank::from_i8((index / 8) as i8).unwrap();
        let square = Square(file, rank);
        assert_eq!(
            is_square_attacked(&board, square),
            is_square_attacked(&cleared, square)
        );
    }
}

#[test]
fn test_checkmate_recognised() {
    let start = Board::default();
    let board =
        process_moves_list(&start, vec!["f2f3", "e7e5", "g2g4", "d8h4"]).unwrap();
    assert_eq!(board.get_gamestate(), GameState::Mated(Color::White));
}

#[test]
fn test_stalemate_recognised() {
    let board = Board::from_fen("k7/8/1Q6/8/8/8/8/K7 b - - 0 1").unwrap();
    assert_eq!(board.get_gamestate(), GameState::Stalemate);
}

#[test]
fn test_hash_equivalence_by_transposition() {
    let start = Board::default();
    let one = process_moves_list(&start, vec!["e2e3", "e7e6", "b1c3", "b8c6"]).unwrap();
    let two = process_moves_list(&start, vec!["b1c3", "b8c6", "e2e3", "e7e6"]).unwrap();
    assert_eq!(get_zobrist_hash(&one), get_zobrist_hash(&two));
    assert_eq!(one.to_fen(), two.to_fen());
}

#[test]
fn test_process_moves_list_rejects_illegal() {
    let start = Board::default();
    assert!(process_moves_list(&start, vec!["e2e5"]).is_err());
    assert!(process_moves_list(&start, vec!["zz"]).is_err());
    assert!(process_moves_list(&start, vec!["e2e4", "e2e4"]).is_err());
}

#[test]
fn test_square_from_string_errors() {
    assert!(Square::from_string("e").is_err());
    assert!(Square::from_string("e2e4").is_err());
    assert!(Square::from_string("i5").is_err());
    assert!(Square::from_string("a9").is_err());
    assert_eq!(Square::from_string("a1").unwrap(), Square(A, _1));
}
