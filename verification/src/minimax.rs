//! Search: negamax with alpha-beta pruning over the legal-move list, with a
//! transposition cache, cached-value move ordering, and a root-level noise
//! term to vary play among equal moves.

use vstd::prelude::*;

use rand::Rng;

use crate::board::{Board, BoardView};
use crate::eval::get_material_eval;
use crate::hashing::{get_zobrist_hash, update_zobrist_hash};
use crate::models::{
    Color, ColorProps, File, GameState, LegalMove, Move, Piece, PieceType, Rank, Square,
};
use crate::move_checking::{
    all_emitted_ok, emits, emitted_ok, ep_sound, is_king_in_check, is_king_sq,
    legal_from_pseudolegal_spec, lemma_emitted_hash_pre, lemma_emitted_make_applicable,
    position_invariant, pseudolegal_pre, unique_king,
};
use crate::transposition_table::{TranspEntry, TranspTable};

verus! {

broadcast use crate::models::lemma_square_index_bijective, crate::models::lemma_index_square_roundtrip;

/// The score of a mated side: a finite stand-in for minus infinity, safe to
/// negate.
pub const MATED_SCORE: i64 = -1_000_000_000;

/// The ceiling of every score the search produces or accepts.
pub const MAX_SCORE: i64 = 1_000_000_000;

/// A score forced into the sentinel window.
pub open spec fn clamp_score(x: i64) -> i64 {
    if x < MATED_SCORE {
        MATED_SCORE
    } else if x > MAX_SCORE {
        MAX_SCORE
    } else {
        x
    }
}

/// A stored entry deep enough to answer the probe outright.
pub open spec fn cache_answers(t: TranspTable, board_hash: u64, depth: u8) -> bool {
    t.slot(board_hash) matches Some((h, e)) && h == board_hash && e.depth >= depth
}

/// Everything the search assumes of a position before expanding it.
pub open spec fn search_pre(v: BoardView) -> bool {
    &&& position_invariant(v)
    &&& ep_sound(v)
    &&& unique_king(v, v.active_player.opponent_spec())
}

/// Decides `search_pre` at run time: the search trusts no position it did
/// not check.
pub fn check_position(board: &Board) -> (r: bool)
    ensures
        r == search_pre(board@),
{
    let ghost v = board@;
    let white_king = count_king_unique(board, Color::White);
    let black_king = count_king_unique(board, Color::Black);
    let active_ok = match board.active_player {
        Color::White => white_king,
        Color::Black => black_king,
    };
    let opp_ok = match board.active_player {
        Color::White => black_king,
        Color::Black => white_king,
    };
    if !active_ok || !opp_ok {
        return false;
    }
    let me = board.active_player;
    let home = me.home_rank();
    if board.has_kingside_castling_rights(me) {
        let king_ok = match board.get_piece_at(Square(File::E, home)) {
            Some(Piece(PieceType::King, c)) => c == me,
            _ => false,
        };
        let rook_ok = match board.get_piece_at(Square(File::H, home)) {
            Some(Piece(PieceType::Rook, c)) => c == me,
            _ => false,
        };
        if !king_ok || !rook_ok {
            return false;
        }
    }
    if board.has_queenside_castling_rights(me) {
        let king_ok = match board.get_piece_at(Square(File::E, home)) {
            Some(Piece(PieceType::King, c)) => c == me,
            _ => false,
        };
        let rook_ok = match board.get_piece_at(Square(File::A, home)) {
            Some(Piece(PieceType::Rook, c)) => c == me,
            _ => false,
        };
        if !king_ok || !rook_ok {
            return false;
        }
    }
    if let Some(t) = board.en_passant_target {
        let rank_ok = match me {
            Color::White => t.1 == Rank::_6,
            Color::Black => t.1 == Rank::_3,
        };
        if !rank_ok {
            return false;
        }
        if board.get_piece_at(t).is_some() {
            return false;
        }
        let cap = match me {
            Color::White => Square(t.0, Rank::_5),
            Color::Black => Square(t.0, Rank::_4),
        };
        let pawn_ok = match board.get_piece_at(cap) {
            Some(Piece(PieceType::Pawn, c)) => c == me.opponent(),
            _ => false,
        };
        if !pawn_ok {
            proof {
                assert(!ep_sound(v));
            }
            return false;
        }
    }
    true
}

/// Scans the board for kings of one color: true exactly when there is one
/// and only one.
fn count_king_unique(board: &Board, color: Color) -> (r: bool)
    ensures
        r == unique_king(board@, color),
{
    let ghost v = board@;
    let mut found: Option<Square> = None;
    let mut i: usize = 0;
    while i < 64
        invariant
            i <= 64,
            v == board@,
            match found {
                Some(s) => is_king_sq(v, color, s) && s.as_index() < i && forall|q: Square|
                    q.as_index() < i && #[trigger] is_king_sq(v, color, q) ==> q == s,
                None => forall|q: Square| q.as_index() < i ==> !(#[trigger] is_king_sq(
                    v,
                    color,
                    q,
                )),
            },
        decreases 64 - i,
    {
        let sq = Square(
            File::from_i8((i % 8) as i8).unwrap(),
            Rank::from_i8((i / 8) as i8).unwrap(),
        );
        proof {
            assert(sq.as_index() == i);
            assert(forall|q: Square| q.as_index() == i ==> q == sq);
        }
        let is_king = match board.get_piece_at(sq) {
            Some(Piece(PieceType::King, c)) => c == color,
            _ => false,
        };
        if is_king {
            match found {
                Some(s) => {
                    proof {
                        assert(is_king_sq(v, color, s) && is_king_sq(v, color, sq) && s != sq);
                        assert(!unique_king(v, color));
                    }
                    return false;
                },
                None => {
                    found = Some(sq);
                },
            }
        }
        i = i + 1;
    }
    match found {
        Some(s) => {
            proof {
                assert(is_king_sq(v, color, s));
                assert forall|s1: Square, s2: Square|
                    #[trigger] is_king_sq(v, color, s1) && #[trigger] is_king_sq(v, color, s2)
                    implies s1 == s2 by {
                    assert(s1.as_index() < 64 && s2.as_index() < 64);
                }
                assert(unique_king(v, color));
            }
            true
        },
        None => {
            proof {
                if crate::move_checking::has_king(v, color) {
                    let q = choose|q: Square| #[trigger] is_king_sq(v, color, q);
                    assert(q.as_index() < 64);
                    assert(false);
                }
            }
            false
        },
    }
}

/// Relies on `rand::thread_rng` and `Rng::gen_range`: a sample of the given
/// closed range, which is never empty. The value depends on the thread's
/// generator, so nothing more is promised of it than its bounds.
#[verifier::external_body]
fn get_noise() -> (r: i64)
    ensures
        -10 <= r <= 10,
{
    let mut rng = rand::thread_rng();
    rng.gen_range(-10i64..=10i64)
}

/// What one search call reports: the value found and the leaves visited.
pub struct SearchResult {
    pub eval: i64,
    pub nodes_searched: u64,
}

/// Looks a child position's value up in the cache; misses sort last.
fn get_cached_eval(board: &Board, board_hash: u64, move_: &LegalMove, cache: &TranspTable) -> (r:
    i64)
    requires
        cache.wf(),
        crate::hashing::hash_update_pre(board@, *move_),
{
    let hash = update_zobrist_hash(board, board_hash, move_);
    match cache.get(hash) {
        Some(entry) => entry.value,
        None => i64::MAX,
    }
}

/// Orders the moves by their cached child values, worst for the opponent
/// first; every move it returns is an accepted legal move of the position.
fn order_moves(board: &Board, board_hash: u64, moves: Vec<LegalMove>, cache: &TranspTable) -> (r:
    Vec<LegalMove>)
    requires
        cache.wf(),
        board@.squares.len() == 64,
        position_invariant(board@),
        ep_sound(board@),
        all_emitted_ok(board@, moves@),
    ensures
        all_emitted_ok(board@, r@),
{
    let ghost v = board@;
    let mut keyed: Vec<(i64, LegalMove)> = Vec::new();
    let mut i: usize = 0;
    while i < moves.len()
        invariant
            i <= moves@.len(),
            cache.wf(),
            v == board@,
            position_invariant(v),
            ep_sound(v),
            all_emitted_ok(v, moves@),
            keyed@.len() == i,
            forall|j: int| 0 <= j < i ==> #[trigger] emitted_ok(v, keyed@[j].1),
        decreases moves@.len() - i,
    {
        let m = moves[i].clone();
        proof {
            assert(emitted_ok(v, moves@[i as int]));
            lemma_emitted_hash_pre(v, moves@[i as int]);
        }
        let key = get_cached_eval(board, board_hash, &m, cache);
        keyed.push((key, m));
        i = i + 1;
    }
    let mut out: Vec<LegalMove> = Vec::new();
    while keyed.len() > 0
        invariant
            v == board@,
            forall|j: int| 0 <= j < keyed@.len() ==> #[trigger] emitted_ok(v, keyed@[j].1),
            all_emitted_ok(v, out@),
        decreases keyed@.len(),
    {
        let mut best: usize = 0;
        let mut k: usize = 1;
        while k < keyed.len()
            invariant
                keyed@.len() > 0,
                best < keyed@.len(),
                k <= keyed@.len(),
            decreases keyed@.len() - k,
        {
            if keyed[k].0 < keyed[best].0 {
                best = k;
            }
            k = k + 1;
        }
        let (_, m) = keyed.swap_remove(best);
        proof {
            assert(emitted_ok(v, m));
        }
        out.push(m);
    }
    out
}

/// The negamax recursion with alpha-beta bounds and the transposition
/// cache. A cached value deep enough answers at once; a leaf or a finished
/// game is scored and cached; otherwise the children are searched in cached
/// order and the window's lower bound comes back.
pub fn nega_max_cached<F: Fn(&Board) -> i64>(
    board: &Board,
    depth: u8,
    alpha: i64,
    beta: i64,
    eval_fn: &F,
    trans_table: &mut TranspTable,
    board_hash: u64,
) -> (r: SearchResult)
    requires
        old(trans_table).wf(),
        MATED_SCORE <= alpha <= MAX_SCORE,
        MATED_SCORE <= beta <= MAX_SCORE,
        alpha <= beta,
        forall|b: &Board| search_pre(b@) ==> #[trigger] call_requires(*eval_fn, (b,)),
    ensures
        final(trans_table).wf(),
        MATED_SCORE <= r.eval <= MAX_SCORE,
        cache_answers(*old(trans_table), board_hash, depth) ==> ({
            let e = (old(trans_table).slot(board_hash)->0).1;
            r.eval == clamp_score(e.value) && r.nodes_searched == 0 && *final(trans_table)
                == *old(trans_table)
        }),
        (!cache_answers(*old(trans_table), board_hash, depth) && search_pre(board@) && !(exists|m: Move|
            #[trigger] emits(board@, m))) ==> r.eval == (if crate::move_checking::in_check(
            board@,
        ) {
            MATED_SCORE
        } else {
            0int as i64
        }) && final(trans_table).slot(board_hash) == Some(
            (board_hash, TranspEntry { depth: 0, value: r.eval }),
        ),
        (!cache_answers(*old(trans_table), board_hash, depth) && search_pre(board@) && (exists|m: Move|
            #[trigger] emits(board@, m)) && depth == 0) ==> (exists|e: i64|
            call_ensures(*eval_fn, (board,), e) && r.eval == clamp_score(e))
            && final(trans_table).slot(board_hash) == Some(
            (board_hash, TranspEntry { depth: 0, value: r.eval }),
        ),
        (!cache_answers(*old(trans_table), board_hash, depth) && search_pre(board@) && (exists|m: Move|
            #[trigger] emits(board@, m)) && depth > 0) ==> alpha <= r.eval <= beta && (r.eval
            == beta || final(trans_table).slot(board_hash) == Some(
            (board_hash, TranspEntry { depth, value: r.eval }),
        )),
    decreases depth,
{
    let mut cur_alpha = alpha;
    if let Some(entry) = trans_table.get(board_hash) {
        if entry.depth >= depth {
            let value = entry.value;
            let clamped = if value < MATED_SCORE {
                MATED_SCORE
            } else if value > MAX_SCORE {
                MAX_SCORE
            } else {
                value
            };
            return SearchResult { eval: clamped, nodes_searched: 0 };
        }
    }
    proof {
        assert(!cache_answers(*old(trans_table), board_hash, depth));
    }
    if !check_position(board) {
        return SearchResult { eval: 0, nodes_searched: 0 };
    }
    if depth == 0 {
        match board.get_gamestate() {
            GameState::Mated(_) => {
                proof {
                    assert(!(exists|m: Move| #[trigger] emits(board@, m)));
                    assert(crate::move_checking::in_check(board@));
                }
                let eval: i64 = MATED_SCORE;
                trans_table.put(board_hash, TranspEntry { depth: 0, value: eval });
                return SearchResult { eval, nodes_searched: 1 };
            },
            GameState::Stalemate => {
                proof {
                    assert(!(exists|m: Move| #[trigger] emits(board@, m)));
                    assert(!crate::move_checking::in_check(board@));
                }
                let eval: i64 = 0;
                trans_table.put(board_hash, TranspEntry { depth: 0, value: eval });
                return SearchResult { eval, nodes_searched: 1 };
            },
            GameState::InProgress => {
                let e = eval_fn(board);
                let eval: i64 = if e < MATED_SCORE {
                    MATED_SCORE
                } else if e > MAX_SCORE {
                    MAX_SCORE
                } else {
                    e
                };
                proof {
                    assert(call_ensures(*eval_fn, (board,), e) && eval == clamp_score(e));
                    assert(exists|ee: i64|
                        call_ensures(*eval_fn, (board,), ee) && eval == clamp_score(ee));
                }
                trans_table.put(board_hash, TranspEntry { depth: 0, value: eval });
                return SearchResult { eval, nodes_searched: 1 };
            },
        }
    }
    let moves = board.get_legal_moves();
    if moves.len() == 0 {
        proof {
            if exists|m: Move| #[trigger] emits(board@, m) {
                let m = choose|m: Move| #[trigger] emits(board@, m);
                assert(moves@.contains(legal_from_pseudolegal_spec(board@, m)->0));
            }
        }
        let eval = if is_king_in_check(board) {
            MATED_SCORE
        } else {
            0
        };
        trans_table.put(board_hash, TranspEntry { depth: 0, value: eval });
        return SearchResult { eval, nodes_searched: 1 };
    }
    proof {
        assert(emitted_ok(board@, moves@[0]));
        let m0 = choose|m: Move|
            #[trigger] legal_from_pseudolegal_spec(board@, m) == Some(moves@[0])
                && pseudolegal_pre(board@, m);
        assert(emits(board@, m0));
    }
    let moves = order_moves(board, board_hash, moves, trans_table);
    let mut nodes_searched: u64 = 0;
    let mut i: usize = 0;
    while i < moves.len()
        invariant
            trans_table.wf(),
            board@.squares.len() == 64,
            search_pre(board@),
            all_emitted_ok(board@, moves@),
            MATED_SCORE <= cur_alpha <= MAX_SCORE,
            MATED_SCORE <= beta <= MAX_SCORE,
            alpha <= cur_alpha <= beta,
            depth >= 1,
            !cache_answers(*old(trans_table), board_hash, depth),
            exists|m: Move| #[trigger] emits(board@, m),
            forall|b: &Board| search_pre(b@) ==> #[trigger] call_requires(*eval_fn, (b,)),
        decreases moves@.len() - i,
    {
        let move_ = &moves[i];
        proof {
            assert(emitted_ok(board@, moves@[i as int]));
            lemma_emitted_make_applicable(board@, moves@[i as int]);
            lemma_emitted_hash_pre(board@, moves@[i as int]);
        }
        let new_board = crate::move_checking::apply_legal_move(board, move_);
        let child_hash = update_zobrist_hash(board, board_hash, move_);
        let result = nega_max_cached(
            &new_board,
            depth - 1,
            if beta == MATED_SCORE {
                MAX_SCORE
            } else {
                -beta
            },
            if cur_alpha == MATED_SCORE {
                MAX_SCORE
            } else {
                -cur_alpha
            },
            eval_fn,
            trans_table,
            child_hash,
        );
        let score = if result.eval == MATED_SCORE {
            MAX_SCORE
        } else {
            -result.eval
        };
        if score >= beta {
            return SearchResult { eval: beta, nodes_searched };
        }
        nodes_searched = nodes_searched.wrapping_add(result.nodes_searched);
        if score > cur_alpha {
            cur_alpha = score;
        }
        i = i + 1;
    }
    trans_table.put(board_hash, TranspEntry { depth, value: cur_alpha });
    SearchResult { eval: cur_alpha, nodes_searched }
}

/// Searches the root position to the given depth and returns the best move
/// found, or nothing when the position has no legal move. A small random
/// perturbation breaks ties among equally good moves.
pub fn search_minimax_cached<F: Fn(&Board) -> i64>(
    board: &Board,
    depth: u8,
    eval_fn: &F,
    trans_table: &mut TranspTable,
) -> (r: Option<LegalMove>)
    requires
        old(trans_table).wf(),
        position_invariant(board@),
        ep_sound(board@),
        depth >= 1,
        forall|b: &Board| search_pre(b@) ==> #[trigger] call_requires(*eval_fn, (b,)),
    ensures
        final(trans_table).wf(),
        r matches Some(lm) ==> emitted_ok(board@, lm),
        r is Some <==> exists|m: Move| #[trigger] emits(board@, m),
{
    let moves = board.get_legal_moves();
    if moves.len() == 0 {
        proof {
            if exists|m: Move| #[trigger] emits(board@, m) {
                let m = choose|m: Move| #[trigger] emits(board@, m);
                assert(moves@.contains(legal_from_pseudolegal_spec(board@, m)->0));
            }
        }
        return None;
    }
    proof {
        assert(emitted_ok(board@, moves@[0]));
        let m0 = choose|m: Move|
            #[trigger] legal_from_pseudolegal_spec(board@, m) == Some(moves@[0])
                && pseudolegal_pre(board@, m);
        assert(emits(board@, m0));
    }
    let initial_hash = get_zobrist_hash(board);
    let mut best_move = moves[0].clone();
    let ghost v = board@;
    proof {
        assert(emitted_ok(v, moves@[0]));
    }
    let mut best_score: i64 = i64::MIN;
    let mut i: usize = 0;
    while i < moves.len()
        invariant
            trans_table.wf(),
            v == board@,
            board@.squares.len() == 64,
            position_invariant(v),
            ep_sound(v),
            all_emitted_ok(v, moves@),
            emitted_ok(v, best_move),
            depth >= 1,
            forall|b: &Board| search_pre(b@) ==> #[trigger] call_requires(*eval_fn, (b,)),
        decreases moves@.len() - i,
    {
        let move_ = moves[i].clone();
        proof {
            assert(emitted_ok(v, moves@[i as int]));
            lemma_emitted_make_applicable(v, moves@[i as int]);
            lemma_emitted_hash_pre(v, moves@[i as int]);
        }
        let new_board = crate::move_checking::apply_legal_move(board, &move_);
        let child_hash = update_zobrist_hash(board, initial_hash, &move_);
        let result = nega_max_cached(
            &new_board,
            depth - 1,
            MATED_SCORE,
            MAX_SCORE,
            eval_fn,
            trans_table,
            child_hash,
        );
        let base = if result.eval == MATED_SCORE {
            MAX_SCORE
        } else {
            -result.eval
        };
        let score = base + get_noise();
        if score > best_score {
            best_score = score;
            best_move = move_;
        }
        i = i + 1;
    }
    Some(best_move)
}

/// Plain negamax without a cache, to a fixed depth, over any evaluator.
fn nega_max<F: Fn(&Board) -> i64>(board: &Board, depth: u32, eval_fn: &F) -> (r: i64)
    requires
        forall|b: &Board| search_pre(b@) ==> #[trigger] call_requires(*eval_fn, (b,)),
    ensures
        MATED_SCORE <= r <= MAX_SCORE,
    decreases depth,
{
    if !check_position(board) {
        return 0;
    }
    if depth == 0 {
        match board.get_gamestate() {
            GameState::Mated(_) => {
                return MATED_SCORE;
            },
            GameState::Stalemate => {
                return 0;
            },
            GameState::InProgress => {
                let e = eval_fn(board);
                return if e < MATED_SCORE {
                    MATED_SCORE
                } else if e > MAX_SCORE {
                    MAX_SCORE
                } else {
                    e
                };
            },
        }
    }
    let moves = board.get_legal_moves();
    if moves.len() == 0 {
        return if is_king_in_check(board) {
            MATED_SCORE
        } else {
            0
        };
    }
    let mut best_score: i64 = MATED_SCORE;
    let mut i: usize = 0;
    while i < moves.len()
        invariant
            board@.squares.len() == 64,
            search_pre(board@),
            all_emitted_ok(board@, moves@),
            MATED_SCORE <= best_score <= MAX_SCORE,
            depth >= 1,
            forall|b: &Board| search_pre(b@) ==> #[trigger] call_requires(*eval_fn, (b,)),
        decreases moves@.len() - i,
    {
        proof {
            assert(emitted_ok(board@, moves@[i as int]));
            lemma_emitted_make_applicable(board@, moves@[i as int]);
        }
        let new_board = crate::move_checking::apply_legal_move(board, &moves[i]);
        let child = nega_max(&new_board, depth - 1, eval_fn);
        let score = if child == MATED_SCORE {
            MAX_SCORE
        } else {
            -child
        };
        if score > best_score {
            best_score = score;
        }
        i = i + 1;
    }
    best_score
}

/// Searches without a cache and returns the best move found, or nothing
/// when the position has no legal move.
pub fn search_minimax<F: Fn(&Board) -> i64>(board: &Board, depth: u32, eval_fn: &F) -> (r: Option<
    LegalMove,
>)
    requires
        position_invariant(board@),
        ep_sound(board@),
        depth >= 1,
        forall|b: &Board| search_pre(b@) ==> #[trigger] call_requires(*eval_fn, (b,)),
    ensures
        r matches Some(lm) ==> emitted_ok(board@, lm),
        r is Some <==> exists|m: Move| #[trigger] emits(board@, m),
{
    let moves = board.get_legal_moves();
    if moves.len() == 0 {
        proof {
            if exists|m: Move| #[trigger] emits(board@, m) {
                let m = choose|m: Move| #[trigger] emits(board@, m);
                assert(moves@.contains(legal_from_pseudolegal_spec(board@, m)->0));
            }
        }
        return None;
    }
    let mut best_move = moves[0].clone();
    let ghost v = board@;
    proof {
        assert(emitted_ok(v, moves@[0]));
        let m0 = choose|m: Move|
            #[trigger] legal_from_pseudolegal_spec(v, m) == Some(moves@[0]) && pseudolegal_pre(
                v,
                m,
            );
        assert(emits(v, m0));
    }
    let mut best_score: i64 = i64::MIN;
    let mut i: usize = 0;
    while i < moves.len()
        invariant
            v == board@,
            board@.squares.len() == 64,
            position_invariant(v),
            ep_sound(v),
            all_emitted_ok(v, moves@),
            emitted_ok(v, best_move),
            depth >= 1,
            forall|b: &Board| search_pre(b@) ==> #[trigger] call_requires(*eval_fn, (b,)),
        decreases moves@.len() - i,
    {
        let move_ = moves[i].clone();
        proof {
            assert(emitted_ok(v, moves@[i as int]));
            lemma_emitted_make_applicable(v, moves@[i as int]);
        }
        let new_board = crate::move_checking::apply_legal_move(board, &move_);
        let child = nega_max(&new_board, depth - 1, eval_fn);
        let base = if child == MATED_SCORE {
            MAX_SCORE
        } else {
            -child
        };
        let score = base + get_noise();
        if score > best_score {
            best_score = score;
            best_move = move_;
        }
        i = i + 1;
    }
    Some(best_move)
}

/// The two-sided alpha-beta search over the plain material evaluation;
/// returns the best root move, or nothing when the position has none.
pub fn search_alpha_beta(board: &Board, depth: u32) -> (r: Option<LegalMove>)
    requires
        position_invariant(board@),
        ep_sound(board@),
        depth >= 1,
    ensures
        r matches Some(lm) ==> emitted_ok(board@, lm),
        r is Some <==> exists|m: Move| #[trigger] emits(board@, m),
{
    let moves = board.get_legal_moves();
    if moves.len() == 0 {
        proof {
            if exists|m: Move| #[trigger] emits(board@, m) {
                let m = choose|m: Move| #[trigger] emits(board@, m);
                assert(moves@.contains(legal_from_pseudolegal_spec(board@, m)->0));
            }
        }
        return None;
    }
    let mut best_move = moves[0].clone();
    let ghost v = board@;
    proof {
        assert(emitted_ok(v, moves@[0]));
        let m0 = choose|m: Move|
            #[trigger] legal_from_pseudolegal_spec(v, m) == Some(moves@[0]) && pseudolegal_pre(
                v,
                m,
            );
        assert(emits(v, m0));
    }
    let mut best_score: i64 = i64::MIN;
    let mut i: usize = 0;
    while i < moves.len()
        invariant
            v == board@,
            board@.squares.len() == 64,
            position_invariant(v),
            ep_sound(v),
            all_emitted_ok(v, moves@),
            emitted_ok(v, best_move),
            depth >= 1,
            i64::MIN <= best_score,
        decreases moves@.len() - i,
    {
        let move_ = moves[i].clone();
        proof {
            assert(emitted_ok(v, moves@[i as int]));
            lemma_emitted_make_applicable(v, moves@[i as int]);
        }
        let new_board = crate::move_checking::apply_legal_move(board, &move_);
        let bound = if best_score < MATED_SCORE {
            MATED_SCORE
        } else if best_score > MAX_SCORE {
            MAX_SCORE
        } else {
            best_score
        };
        let child = alpha_beta_min_rec(&new_board, depth - 1, bound, MAX_SCORE);
        let score = child + get_noise();
        if score > best_score {
            best_score = score;
            best_move = move_;
        }
        i = i + 1;
    }
    Some(best_move)
}

/// The maximizing side of the two-sided alpha-beta recursion.
fn alpha_beta_max_rec(board: &Board, depth: u32, alpha: i64, beta: i64) -> (r: i64)
    requires
        MATED_SCORE <= alpha <= MAX_SCORE,
        MATED_SCORE <= beta <= MAX_SCORE,
    ensures
        MATED_SCORE <= r <= MAX_SCORE,
    decreases depth, 1int,
{
    let mut alpha = alpha;
    if !check_position(board) {
        return alpha;
    }
    let gamestate = board.get_gamestate();
    if gamestate == GameState::Mated(board.active_player) {
        return MATED_SCORE;
    }
    if gamestate == GameState::Stalemate {
        return 0;
    }
    if depth == 0 {
        let e = get_material_eval(board);
        return if e < MATED_SCORE {
            MATED_SCORE
        } else if e > MAX_SCORE {
            MAX_SCORE
        } else {
            e
        };
    }
    let moves = board.get_legal_moves();
    let mut i: usize = 0;
    while i < moves.len()
        invariant
            board@.squares.len() == 64,
            search_pre(board@),
            all_emitted_ok(board@, moves@),
            MATED_SCORE <= alpha <= MAX_SCORE,
            MATED_SCORE <= beta <= MAX_SCORE,
            depth >= 1,
        decreases moves@.len() - i,
    {
        proof {
            assert(emitted_ok(board@, moves@[i as int]));
            lemma_emitted_make_applicable(board@, moves@[i as int]);
        }
        let new_board = crate::move_checking::apply_legal_move(board, &moves[i]);
        let score = alpha_beta_min_rec(&new_board, depth - 1, alpha, beta);
        if score >= beta {
            return beta;
        }
        if score > alpha {
            alpha = score;
        }
        i = i + 1;
    }
    alpha
}

/// The minimizing side of the two-sided alpha-beta recursion.
fn alpha_beta_min_rec(board: &Board, depth: u32, alpha: i64, beta: i64) -> (r: i64)
    requires
        MATED_SCORE <= alpha <= MAX_SCORE,
        MATED_SCORE <= beta <= MAX_SCORE,
    ensures
        MATED_SCORE <= r <= MAX_SCORE,
    decreases depth, 0int,
{
    let mut beta = beta;
    if !check_position(board) {
        return alpha;
    }
    let gamestate = board.get_gamestate();
    if gamestate == GameState::Mated(board.active_player) {
        return MATED_SCORE;
    }
    if gamestate == GameState::Stalemate {
        return 0;
    }
    if depth == 0 {
        let e = get_material_eval(board);
        return if e < MATED_SCORE {
            MATED_SCORE
        } else if e > MAX_SCORE {
            MAX_SCORE
        } else {
            e
        };
    }
    let moves = board.get_legal_moves();
    let mut i: usize = 0;
    while i < moves.len()
        invariant
            board@.squares.len() == 64,
            search_pre(board@),
            all_emitted_ok(board@, moves@),
            MATED_SCORE <= alpha <= MAX_SCORE,
            MATED_SCORE <= beta <= MAX_SCORE,
            depth >= 1,
        decreases moves@.len() - i,
    {
        proof {
            assert(emitted_ok(board@, moves@[i as int]));
            lemma_emitted_make_applicable(board@, moves@[i as int]);
        }
        let new_board = crate::move_checking::apply_legal_move(board, &moves[i]);
        let child = alpha_beta_max_rec(&new_board, depth - 1, alpha, beta);
        let score = if child == MATED_SCORE {
            MAX_SCORE
        } else {
            -child
        };
        if score <= alpha {
            return alpha;
        }
        if score < beta {
            beta = score;
        }
        i = i + 1;
    }
    alpha
}

} // verus!
