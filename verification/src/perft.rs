//! Perft: counting the leaves of the legal-move tree to a fixed depth with
//! make and unmake, the canonical validation of a move generator.

use vstd::prelude::*;

use crate::board::{make_spec, Board, BoardView};
use crate::minimax::{check_position, search_pre};
use crate::move_checking::{
    all_emitted_ok, emitted_ok, lemma_emitted_make_applicable, lemma_emitted_make_unmake,
    lemma_emitted_unmake_applicable,
};

verus! {

/// Counts the leaf positions reachable in `depth` half-moves; the board
/// comes back exactly as it went in.
pub fn perft(board: &mut Board, depth: i8) -> (r: u64)
    ensures
        final(board)@ == old(board)@,
{
    perft_rec(board, depth)
}

/// The recursive leaf count under `perft`.
pub fn perft_rec(board: &mut Board, depth: i8) -> (r: u64)
    ensures
        final(board)@ == old(board)@,
    decreases depth,
{
    if depth <= 0 {
        return 1;
    }
    if !check_position(board) {
        return 1;
    }
    let ghost v1 = board@;
    let moves = board.get_legal_moves();
    let mut count: u64 = 0;
    let mut i: usize = 0;
    while i < moves.len()
        invariant
            1 <= depth,
            v1.squares.len() == 64,
            search_pre(v1),
            all_emitted_ok(v1, moves@),
            board@ == v1,
        decreases moves@.len() - i,
    {
        let mv = moves[i];
        proof {
            assert(emitted_ok(v1, moves@[i as int]));
            lemma_emitted_make_applicable(v1, moves@[i as int]);
            lemma_emitted_unmake_applicable(v1, moves@[i as int]);
            lemma_emitted_make_unmake(v1, moves@[i as int]);
        }
        board.make_move(&mv);
        let new_positions = perft_rec(board, depth - 1);
        count = count.wrapping_add(new_positions);
        board.unmake_move(&mv);
        i = i + 1;
    }
    count
}

} // verus!
