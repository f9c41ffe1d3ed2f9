//! Agents that pick moves: the player interface, a random reference agent,
//! and the loop that plays a game out between two agents.

use vstd::prelude::*;

use rand::Rng;

use crate::board::Board;
use crate::minimax::check_position;
use crate::models::{Color, GameState, LegalMove};
use crate::move_checking::{apply_legal_move, emitted_ok, lemma_emitted_make_applicable};

verus! {

/// An agent that proposes a validated move for the position in front of
/// it, or nothing when it has none to offer.
pub trait ChessPlayer {
    fn propose_move(&self, board: &Board) -> (r: Option<LegalMove>)
        ensures
            r matches Some(lm) ==> emitted_ok(board@, lm),
    ;
}

/// The reference agent: it plays a uniformly random legal move.
pub struct RandomPlayer;

/// Relies on `rand::thread_rng` and `Rng::gen_range`: a sample below the
/// given bound, which is positive, so the range is never empty.
#[verifier::external_body]
fn random_below(n: usize) -> (r: usize)
    requires
        n > 0,
    ensures
        r < n,
{
    let mut rng = rand::thread_rng();
    rng.gen_range(0..n)
}

impl ChessPlayer for RandomPlayer {
    fn propose_move(&self, board: &Board) -> (r: Option<LegalMove>)
        ensures
            r matches Some(lm) ==> emitted_ok(board@, lm),
    {
        if !check_position(board) {
            return None;
        }
        let moves = board.get_legal_moves();
        if moves.len() == 0 {
            return None;
        }
        let index = random_below(moves.len());
        proof {
            assert(emitted_ok(board@, moves@[index as int]));
        }
        Some(moves[index])
    }
}

/// Plays a game out between two agents from the starting position, White
/// moving first, and reports how it ended; a marathon past a million
/// half-moves is abandoned as still in progress.
pub fn run_game<W: ChessPlayer, B: ChessPlayer>(white_player: &W, black_player: &B) -> (r:
    GameState)
{
    let mut board = Board::default();
    let mut plies: usize = 0;
    while plies < 1000000
        invariant
            plies <= 1000000,
        decreases 1000000 - plies,
    {
        plies = plies + 1;
        if !check_position(&board) {
            return GameState::InProgress;
        }
        let m = match board.active_player {
            Color::White => white_player.propose_move(&board),
            Color::Black => black_player.propose_move(&board),
        };
        let m = match m {
            Some(mv) => mv,
            None => {
                return board.get_gamestate();
            },
        };
        proof {
            lemma_emitted_make_applicable(board@, m);
        }
        board = apply_legal_move(&board, &m);
        if !check_position(&board) {
            return GameState::InProgress;
        }
        match board.get_gamestate() {
            GameState::InProgress => {},
            gs => {
                return gs;
            },
        }
    }
    GameState::InProgress
}

} // verus!
