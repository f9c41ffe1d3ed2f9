use otus::board::Board;
use otus::eval::{get_material_eval, smart_eval};
use otus::minimax::{search_alpha_beta, search_minimax, search_minimax_cached};
use otus::models::{GameState, LegalMove, Square};
use otus::players::{ChessPlayer, RandomPlayer};
use otus::transposition_table::{TranspEntry, TranspTable};

#[test]
fn test_material_eval_balanced_start() {
    let board = Board::default();
    assert_eq!(get_material_eval(&board), 0);
}

#[test]
fn test_material_eval_extra_knight() {
    let board = Board::from_fen("4k3/8/8/8/8/8/8/2N1K3 w - - 0 1").unwrap();
    assert_eq!(get_material_eval(&board), 300);
    let board = Board::from_fen("4k3/8/8/8/8/8/8/2N1K3 b - - 0 1").unwrap();
    assert_eq!(get_material_eval(&board), -300);
}

#[test]
fn test_material_eval_mixed() {
    let board = Board::from_fen("4k3/3q4/8/8/8/8/8/R3K3 w - - 0 1").unwrap();
    assert_eq!(get_material_eval(&board), 500 - 900);
}

#[test]
fn test_smart_eval_check_penalty() {
    let quiet = Board::from_fen("4k3/8/8/8/8/8/8/4K3 w - - 0 1").unwrap();
    let checked = Board::from_fen("4k3/8/8/8/8/8/4r3/4K3 w - - 0 1").unwrap();
    assert!(smart_eval(&checked) < smart_eval(&quiet));
}

#[test]
fn test_search_finds_mate_in_one() {
    let board = Board::from_fen("k7/8/1K6/8/8/8/8/7R w - - 0 1").unwrap();
    let mut table = TranspTable::new(1 << 12);
    let best = search_minimax_cached(&board, 2, &smart_eval, &mut table).unwrap();
    match best {
        LegalMove::Normal { src, dest, .. } => {
            assert_eq!(src, Square::from_string("h1").unwrap());
            assert_eq!(dest, Square::from_string("h8").unwrap());
        },
        other => panic!("expected the rook mate, got {:?}", other),
    }
}

#[test]
fn test_cache_clear_keeps_selection() {
    let board = Board::from_fen("k7/8/1K6/8/8/8/8/7R w - - 0 1").unwrap();
    let mut warm = TranspTable::new(1 << 12);
    let first = search_minimax_cached(&board, 2, &smart_eval, &mut warm).unwrap();
    let second = search_minimax_cached(&board, 2, &smart_eval, &mut warm).unwrap();
    let mut fresh = TranspTable::new(1 << 12);
    let third = search_minimax_cached(&board, 2, &smart_eval, &mut fresh).unwrap();
    assert_eq!(first, second);
    assert_eq!(second, third);
}

#[test]
fn test_search_minimax_finds_mate() {
    let board = Board::from_fen("k7/8/1K6/8/8/8/8/7R w - - 0 1").unwrap();
    let best = search_minimax(&board, 2, &get_material_eval).unwrap();
    match best {
        LegalMove::Normal { src, dest, .. } => {
            assert_eq!(src, Square::from_string("h1").unwrap());
            assert_eq!(dest, Square::from_string("h8").unwrap());
        },
        other => panic!("expected the rook mate, got {:?}", other),
    }
}

#[test]
fn test_search_alpha_beta_returns_a_legal_move() {
    let board = Board::from_fen("k7/8/1K6/8/8/8/8/7R w - - 0 1").unwrap();
    let best = search_alpha_beta(&board, 2).unwrap();
    assert!(board.get_legal_moves().contains(&best));
}

#[test]
fn test_search_on_finished_game_returns_none() {
    let board = Board::from_fen("k7/8/1Q6/8/8/8/8/K7 b - - 0 1").unwrap();
    let mut table = TranspTable::new(1 << 8);
    assert!(search_minimax_cached(&board, 2, &smart_eval, &mut table).is_none());
}

#[test]
fn test_transposition_table_roundtrip() {
    let mut table = TranspTable::new(8);
    assert!(table.get(42).is_none());
    table.put(42, TranspEntry { depth: 3, value: 123 });
    assert_eq!(*table.get(42).unwrap(), TranspEntry { depth: 3, value: 123 });
    assert!(table.get(42 + 8).is_none());
    table.put(42 + 8, TranspEntry { depth: 1, value: -5 });
    assert!(table.get(42).is_none());
    assert_eq!(*table.get(42 + 8).unwrap(), TranspEntry { depth: 1, value: -5 });
    assert_eq!(table.occupancy_counts().0, 1);
    assert_eq!(table.occupancy_counts().1, 8);
}

#[test]
fn test_random_player_plays_the_only_move() {
    let board = Board::from_fen("k7/8/8/8/8/7p/7P/7K w - - 0 1").unwrap();
    let moves = board.get_legal_moves();
    assert_eq!(moves.len(), 1);
    let player = RandomPlayer;
    let proposed = player.propose_move(&board).unwrap();
    assert_eq!(proposed, moves[0]);
}

#[test]
fn test_gamestate_start_in_progress() {
    let board = Board::default();
    assert_eq!(board.get_gamestate(), GameState::InProgress);
}
