//! Listing the legal moves of a position and deciding the state of the
//! game. The list is sound — every move it hands out is one the judging
//! routines accept — and complete: every candidate the judging routines
//! accept appears in it.

use vstd::prelude::*;

use crate::board::Board;
use crate::board_utils::{in_dir, ray_f, ray_r, PlayerPieceIter};
use crate::models::{
    square_of_index, Color, ColorProps, GameState, LegalMove, Move, Piece, PieceType,
    PromotionPieceType, Rank, Square,
};
use crate::move_checking::{
    all_emitted_ok, can_castle_kingside, can_castle_queenside, emits, emitted_ok, ep_sound,
    get_legal_move_from_pseudolegal_move, in_check, is_king_in_check, is_promotion_move,
    legal_from_pseudolegal_spec, lemma_emits_src_facts, list_complete, move_src,
    position_invariant, pseudolegal_pre,
};
use crate::square_utils::{
    all_dir, d_file, d_rank, is_king_pattern, is_knight_pattern, is_pattern, knight_hop, on_board,
    pos_plus, slide_dist, spec_all_dir, spec_knight_hop, sq_at,
};

verus! {

broadcast use crate::models::lemma_square_index_bijective;

/// If a plain candidate from `src` to `dest` is accepted, the list holds
/// its classification.
pub open spec fn covers_normal(
    v: crate::board::BoardView,
    s: Seq<LegalMove>,
    src: Square,
    dest: Square,
) -> bool {
    legal_from_pseudolegal_spec(v, Move::Normal { src, dest }) matches Some(lm) ==> s.contains(lm)
}

/// If a promoting candidate from `src` to `dest` is accepted, the list
/// holds its classification, whatever the piece promoted to.
pub open spec fn covers_promos(
    v: crate::board::BoardView,
    s: Seq<LegalMove>,
    src: Square,
    dest: Square,
) -> bool {
    forall|pp: PromotionPieceType|
        #[trigger] legal_from_pseudolegal_spec(v, Move::Promotion { src, dest, promotion: pp })
            matches Some(lm) ==> s.contains(lm)
}

/// Every accepted candidate leaving along ray `i` from `src` is covered.
pub open spec fn dir_covered(
    v: crate::board::BoardView,
    s: Seq<LegalMove>,
    src: Square,
    i: int,
) -> bool {
    forall|dest: Square|
        #[trigger] in_dir(src, dest, spec_all_dir(i).0, spec_all_dir(i).1) ==> covers_normal(
            v,
            s,
            src,
            dest,
        )
}

/// Every accepted candidate moving from `src` is covered.
pub open spec fn src_covered(v: crate::board::BoardView, s: Seq<LegalMove>, src: Square) -> bool {
    forall|m: Move|
        #[trigger] emits(v, m) && move_src(m) == Some(src) ==> s.contains(
            legal_from_pseudolegal_spec(v, m)->0,
        )
}

/// The first list's entries all appear in the second.
pub open spec fn mono(a: Seq<LegalMove>, b: Seq<LegalMove>) -> bool {
    forall|x: LegalMove| #[trigger] a.contains(x) ==> b.contains(x)
}

/// A list extended at the end keeps everything it held.
proof fn lemma_prefix_mono(a: Seq<LegalMove>, b: Seq<LegalMove>)
    requires
        a.len() <= b.len(),
        forall|j: int| 0 <= j < a.len() ==> a[j] == b[j],
    ensures
        mono(a, b),
{
    assert forall|x: LegalMove| #[trigger] a.contains(x) implies b.contains(x) by {
        let i = choose|i: int| 0 <= i < a.len() && a[i] == x;
        assert(b[i] == x);
    }
}

/// A distinct aligned destination lies on one of the eight rays: a rook
/// line on a rook ray, a diagonal on a bishop ray.
pub(crate) proof fn lemma_aligned_to_dir(src: Square, dest: Square)
    requires
        src != dest,
        crate::square_utils::is_rook_pattern(src, dest) || crate::square_utils::is_bishop_pattern(
            src,
            dest,
        ),
    ensures
        crate::square_utils::is_rook_pattern(src, dest) ==> exists|i: int|
            0 <= i < 4 && #[trigger] in_dir(src, dest, spec_all_dir(i).0, spec_all_dir(i).1),
        !crate::square_utils::is_rook_pattern(src, dest) ==> exists|i: int|
            4 <= i < 8 && #[trigger] in_dir(src, dest, spec_all_dir(i).0, spec_all_dir(i).1),
{
    let df = d_file(src, dest);
    let dr = d_rank(src, dest);
    let dx: int = if df > 0 { 1 } else if df < 0 { -1 } else { 0 };
    let dy: int = if dr > 0 { 1 } else if dr < 0 { -1 } else { 0 };
    assert(in_dir(src, dest, dx, dy));
    let i: int = if dx == 0 && dy == 1 { 0 }
    else if dx == 1 && dy == 0 { 1 }
    else if dx == 0 && dy == -1 { 2 }
    else if dx == -1 && dy == 0 { 3 }
    else if dx == 1 && dy == 1 { 4 }
    else if dx == 1 && dy == -1 { 5 }
    else if dx == -1 && dy == -1 { 6 }
    else { 7 };
    assert(spec_all_dir(i) == (dx, dy));
    assert(in_dir(src, dest, spec_all_dir(i).0, spec_all_dir(i).1));
}

/// A distinct king-step destination is one unit step away in one of the
/// eight directions.
pub(crate) proof fn lemma_king_to_dir(src: Square, dest: Square)
    requires
        src != dest,
        is_king_pattern(src, dest),
    ensures
        exists|i: int|
            0 <= i < 8 && on_board(
                src.0.as_int() + spec_all_dir(i).0,
                src.1.as_int() + spec_all_dir(i).1,
            ) && dest == sq_at(
                #[trigger] src.0.as_int() + spec_all_dir(i).0,
                src.1.as_int() + spec_all_dir(i).1,
            ),
{
    let dx = d_file(src, dest);
    let dy = d_rank(src, dest);
    let i: int = if dx == 0 && dy == 1 { 0 }
    else if dx == 1 && dy == 0 { 1 }
    else if dx == 0 && dy == -1 { 2 }
    else if dx == -1 && dy == 0 { 3 }
    else if dx == 1 && dy == 1 { 4 }
    else if dx == 1 && dy == -1 { 5 }
    else if dx == -1 && dy == -1 { 6 }
    else { 7 };
    assert(spec_all_dir(i) == (dx, dy));
    assert(dest == sq_at(src.0.as_int() + dx, src.1.as_int() + dy));
}

/// Judges the candidate and appends it when it is legal.
fn try_push_candidate(board: &Board, src: Square, dest: Square, moves: &mut Vec<LegalMove>)
    requires
        position_invariant(board@),
        ep_sound(board@),
        (board@.at(src) matches Some(p) && p.1 == board.active_player) ==> is_pattern(
            src,
            dest,
            (board@.at(src)->0).0,
            board.active_player,
        ),
        all_emitted_ok(board@, old(moves)@),
    ensures
        all_emitted_ok(board@, final(moves)@),
        mono(old(moves)@, final(moves)@),
        covers_normal(board@, final(moves)@, src, dest),
{
    let ghost before = moves@;
    let m = Move::Normal { src, dest };
    if let Some(lm) = get_legal_move_from_pseudolegal_move(board, &m) {
        proof {
            assert(legal_from_pseudolegal_spec(board@, m) == Some(lm) && pseudolegal_pre(
                board@,
                m,
            ));
            assert(emitted_ok(board@, lm));
        }
        moves.push(lm);
        proof {
            assert(moves@[before.len() as int] == lm);
            assert(moves@.contains(lm));
            lemma_prefix_mono(before, moves@);
        }
    } else {
        proof {
            lemma_prefix_mono(before, moves@);
        }
    }
}

/// Walks one ray from `src`, appending every legal landing; afterwards
/// every accepted candidate along that ray is in the list.
#[verifier::rlimit(100)]
fn add_ray_moves(board: &Board, src: Square, di: usize, moves: &mut Vec<LegalMove>)
    requires
        di < 8,
        position_invariant(board@),
        ep_sound(board@),
        board@.at(src) is Some && (board@.at(src)->0).1 == board.active_player,
        ({
            let piece = (board@.at(src)->0).0;
            forall|dest: Square| #[trigger] in_dir(src, dest, spec_all_dir(di as int).0, spec_all_dir(di as int).1)
                ==> is_pattern(src, dest, piece, board.active_player)
        }),
        all_emitted_ok(board@, old(moves)@),
    ensures
        all_emitted_ok(board@, final(moves)@),
        mono(old(moves)@, final(moves)@),
        dir_covered(board@, final(moves)@, src, di as int),
{
    let (dx, dy) = all_dir(di);
    let ghost dxi = dx as int;
    let ghost dyi = dy as int;
    let mut cur = src;
    let ghost k: int = 0;
    loop
        invariant
            position_invariant(board@),
            ep_sound(board@),
            board@.at(src) is Some && (board@.at(src)->0).1 == board.active_player,
            di < 8,
            (dx as int, dy as int) == spec_all_dir(di as int),
            dxi == dx as int,
            dyi == dy as int,
            -1 <= dxi <= 1,
            -1 <= dyi <= 1,
            !(dxi == 0 && dyi == 0),
            0 <= k <= 7,
            k == 0 ==> cur == src,
            k > 0 ==> cur == sq_at(ray_f(src, dxi, k), ray_r(src, dyi, k)) && on_board(
                ray_f(src, dxi, k),
                ray_r(src, dyi, k),
            ),
            forall|dest: Square| #[trigger] in_dir(src, dest, dxi, dyi) ==> is_pattern(
                src,
                dest,
                (board@.at(src)->0).0,
                board.active_player,
            ),
            all_emitted_ok(board@, moves@),
            mono(old(moves)@, moves@),
            forall|dest: Square|
                #[trigger] in_dir(src, dest, dxi, dyi) && slide_dist(src, dest) <= k
                    ==> covers_normal(board@, moves@, src, dest),
        decreases 8 - k,
    {
        let next = match pos_plus(cur, (dx, dy)) {
            Some(p) => p,
            None => {
                proof {
                    assert forall|dest: Square| #[trigger] in_dir(src, dest, dxi, dyi) implies covers_normal(
                        board@,
                        moves@,
                        src,
                        dest,
                    ) by {
                        crate::board_utils::lemma_in_dir_to_ray(src, dest, dxi, dyi);
                        let kd = slide_dist(src, dest);
                        assert(slide_dist(src, dest) == slide_dist(dest, src));
                        if kd > k {
                            assert(on_board(ray_f(src, dxi, kd), ray_r(src, dyi, kd)));
                            assert(!on_board(ray_f(src, dxi, k + 1), ray_r(src, dyi, k + 1)));
                            assert(false);
                        }
                    }
                }
                return ;
            },
        };
        proof {
            if k == 0 {
                assert(next == sq_at(ray_f(src, dxi, 1), ray_r(src, dyi, 1)));
            } else {
                assert(next == sq_at(ray_f(src, dxi, k + 1), ray_r(src, dyi, k + 1)));
            }
            crate::board_utils::lemma_ray_props(src, dxi, dyi, k + 1);
            assert(in_dir(src, next, dxi, dyi));
            assert(k + 1 <= 7) by {
                assert(on_board(ray_f(src, dxi, k + 1), ray_r(src, dyi, k + 1)));
            }
        }
        let ghost mid = moves@;
        try_push_candidate(board, src, next, moves);
        proof {
            assert forall|dest: Square|
                #[trigger] in_dir(src, dest, dxi, dyi) && slide_dist(src, dest) <= k + 1 implies covers_normal(
                board@,
                moves@,
                src,
                dest,
            ) by {
                if slide_dist(src, dest) <= k {
                    assert(covers_normal(board@, mid, src, dest));
                } else {
                    crate::board_utils::lemma_in_dir_to_ray(src, dest, dxi, dyi);
                    assert(slide_dist(src, dest) == slide_dist(dest, src));
                    assert(dest == next);
                }
            }
        }
        cur = next;
        proof {
            k = k + 1;
        }
    }
}

/// The position of a promotion piece in the order the listing tries them.
pub open spec fn promo_index(pp: PromotionPieceType) -> int {
    match pp {
        PromotionPieceType::Queen => 0,
        PromotionPieceType::Rook => 1,
        PromotionPieceType::Bishop => 2,
        PromotionPieceType::Knight => 3,
    }
}

impl Board {
    /// Appends the four promotions of a pawn step that proves legal;
    /// afterwards every accepted promotion of that step is in the list.
    fn try_add_promotion_moves(&self, src: Square, dest: Square, moves: &mut Vec<LegalMove>)
        requires
            position_invariant(self@),
            ep_sound(self@),
            (self@.at(src) matches Some(p) && p.1 == self.active_player) ==> is_pattern(
                src,
                dest,
                (self@.at(src)->0).0,
                self.active_player,
            ),
            all_emitted_ok(self@, old(moves)@),
        ensures
            all_emitted_ok(self@, final(moves)@),
            mono(old(moves)@, final(moves)@),
            covers_promos(self@, final(moves)@, src, dest),
    {
        let ghost before = moves@;
        let probe = Move::Promotion {
            src,
            dest,
            promotion: PromotionPieceType::Queen,
        };
        if let Some(LegalMove::Promotion { castle_mask, .. }) = get_legal_move_from_pseudolegal_move(
            self,
            &probe,
        ) {
            let dst_piece = match self.get_piece_at(dest) {
                Some(p) => Some(p.0),
                None => None,
            };
            let mut pi: usize = 0;
            while pi < 4
                invariant
                    pi <= 4,
                    position_invariant(self@),
                    ep_sound(self@),
                    probe == (Move::Promotion {
                        src,
                        dest,
                        promotion: PromotionPieceType::Queen,
                    }),
                    pseudolegal_pre(self@, probe),
                    legal_from_pseudolegal_spec(self@, probe) matches Some(
                        LegalMove::Promotion { castle_mask: cm, .. },
                    ) && cm == castle_mask,
                    dst_piece == (match self@.at(dest) {
                        Some(p) => Some(p.0),
                        None => None,
                    }),
                    all_emitted_ok(self@, moves@),
                    mono(before, moves@),
                    forall|pp: PromotionPieceType|
                        promo_index(pp) < pi ==> (#[trigger] legal_from_pseudolegal_spec(
                            self@,
                            Move::Promotion { src, dest, promotion: pp },
                        ) matches Some(lm) ==> moves@.contains(lm)),
                decreases 4 - pi,
            {
                let promotion_piece = match pi {
                    0 => PieceType::Queen,
                    1 => PieceType::Rook,
                    2 => PieceType::Bishop,
                    _ => PieceType::Knight,
                };
                let promo = match pi {
                    0 => PromotionPieceType::Queen,
                    1 => PromotionPieceType::Rook,
                    2 => PromotionPieceType::Bishop,
                    _ => PromotionPieceType::Knight,
                };
                let lm = LegalMove::Promotion {
                    src,
                    dest,
                    promotion: promotion_piece,
                    castle_mask,
                    captured_piece: dst_piece,
                    prior_en_passant: self.en_passant_target,
                };
                let ghost mid = moves@;
                proof {
                    let m2 = Move::Promotion { src, dest, promotion: promo };
                    assert(legal_from_pseudolegal_spec(self@, m2) == Some(lm));
                    assert(pseudolegal_pre(self@, m2));
                    assert(emitted_ok(self@, lm));
                }
                moves.push(lm);
                proof {
                    assert(moves@[mid.len() as int] == lm);
                    assert(moves@.contains(lm));
                    lemma_prefix_mono(mid, moves@);
                    assert(promo_index(promo) == pi);
                }
                pi = pi + 1;
            }
        } else {
            proof {
                lemma_prefix_mono(before, moves@);
                assert forall|pp: PromotionPieceType|
                    #[trigger] legal_from_pseudolegal_spec(
                        self@,
                        Move::Promotion { src, dest, promotion: pp },
                    ) is Some implies moves@.contains(
                    legal_from_pseudolegal_spec(
                        self@,
                        Move::Promotion { src, dest, promotion: pp },
                    )->0,
                ) by {
                    assert(legal_from_pseudolegal_spec(self@, probe) is Some);
                    assert(false);
                }
            }
        }
    }

    /// Lists the legal moves of the side to move: exactly the candidates
    /// the judging routines accept on this position — every listed move is
    /// accepted, and every accepted candidate is listed.
    #[verifier::rlimit(100)]
    pub fn get_legal_moves(&self) -> (r: Vec<LegalMove>)
        requires
            position_invariant(self@),
            ep_sound(self@),
        ensures
            all_emitted_ok(self@, r@),
            list_complete(self@, r@),
    {
        let ghost v = self@;
        let mut legal_moves: Vec<LegalMove> = Vec::new();
        let (forward, home_rank, opp_home_rank): (i8, Rank, Rank) = match self.active_player {
            Color::White => (1, Rank::_2, Rank::_7),
            Color::Black => (-1, Rank::_7, Rank::_2),
        };
        let mut piece_iter = PlayerPieceIter::new(self, self.active_player);
        loop
            invariant
                v == self@,
                position_invariant(v),
                ep_sound(v),
                piece_iter.board == self,
                piece_iter.player == self.active_player,
                piece_iter.square_iter.current <= 64,
                (forward as int, home_rank, opp_home_rank) == (match self.active_player {
                    Color::White => (1int, Rank::_2, Rank::_7),
                    Color::Black => (-1int, Rank::_7, Rank::_2),
                }),
                all_emitted_ok(v, legal_moves@),
                forall|src: Square|
                    src.as_index() < piece_iter.square_iter.current ==> #[trigger] src_covered(
                        v,
                        legal_moves@,
                        src,
                    ),
            ensures
                v == self@,
                all_emitted_ok(v, legal_moves@),
                forall|src: Square| #[trigger] src_covered(v, legal_moves@, src),
            decreases 64 - piece_iter.square_iter.current,
        {
            let ghost scan_from = piece_iter.square_iter.current as int;
            let ghost it_before = piece_iter;
            let ghost list_before = legal_moves@;
            let (piece, src) = match piece_iter.next() {
                Some(p) => p,
                None => {
                    proof {
                        assert forall|src: Square| #[trigger] src_covered(v, legal_moves@, src) by {
                            if src.as_index() >= scan_from {
                                assert(!it_before.mine_at(src.as_index()));
                                assert(!(v.at(square_of_index(src.as_index())) matches Some(p)
                                    && p.1 == self.active_player));
                                lemma_src_vacuous_or_seen(
                                    v,
                                    legal_moves@,
                                    src,
                                    scan_from,
                                    64,
                                    self.active_player,
                                );
                            }
                        }
                    }
                    break ;
                },
            };
            proof {
                assert(v.at(src) == Some(Piece(piece, self.active_player)));
            }
            match piece {
                PieceType::Queen => {
                    let mut di: usize = 0;
                    while di < 8
                        invariant
                            di <= 8,
                            v == self@,
                            position_invariant(v),
                            ep_sound(v),
                            v.at(src) == Some(Piece(PieceType::Queen, self.active_player)),
                            all_emitted_ok(v, legal_moves@),
                            mono(list_before, legal_moves@),
                            forall|j: int| 0 <= j < di ==> #[trigger] dir_covered(
                                v,
                                legal_moves@,
                                src,
                                j,
                            ),
                        decreases 8 - di,
                    {
                        let ghost mid = legal_moves@;
                        add_ray_moves(self, src, di, &mut legal_moves);
                        proof {
                            lemma_dir_covered_mono(v, mid, legal_moves@, src, 0, di as int);
                        }
                        di = di + 1;
                    }
                    proof {
                        lemma_slider_src_covered(v, legal_moves@, src, PieceType::Queen);
                    }
                },
                PieceType::Rook => {
                    let mut di: usize = 0;
                    while di < 4
                        invariant
                            di <= 4,
                            v == self@,
                            position_invariant(v),
                            ep_sound(v),
                            v.at(src) == Some(Piece(PieceType::Rook, self.active_player)),
                            all_emitted_ok(v, legal_moves@),
                            mono(list_before, legal_moves@),
                            forall|j: int| 0 <= j < di ==> #[trigger] dir_covered(
                                v,
                                legal_moves@,
                                src,
                                j,
                            ),
                        decreases 4 - di,
                    {
                        let ghost mid = legal_moves@;
                        add_ray_moves(self, src, di, &mut legal_moves);
                        proof {
                            lemma_dir_covered_mono(v, mid, legal_moves@, src, 0, di as int);
                        }
                        di = di + 1;
                    }
                    proof {
                        lemma_slider_src_covered(v, legal_moves@, src, PieceType::Rook);
                    }
                },
                PieceType::Bishop => {
                    let mut di: usize = 4;
                    while di < 8
                        invariant
                            4 <= di <= 8,
                            v == self@,
                            position_invariant(v),
                            ep_sound(v),
                            v.at(src) == Some(Piece(PieceType::Bishop, self.active_player)),
                            all_emitted_ok(v, legal_moves@),
                            mono(list_before, legal_moves@),
                            forall|j: int| 4 <= j < di ==> #[trigger] dir_covered(
                                v,
                                legal_moves@,
                                src,
                                j,
                            ),
                        decreases 8 - di,
                    {
                        let ghost mid = legal_moves@;
                        add_ray_moves(self, src, di, &mut legal_moves);
                        proof {
                            lemma_dir_covered_mono(v, mid, legal_moves@, src, 4, di as int);
                        }
                        di = di + 1;
                    }
                    proof {
                        lemma_slider_src_covered(v, legal_moves@, src, PieceType::Bishop);
                    }
                },
                PieceType::Knight => {
                    let mut hi: usize = 0;
                    while hi < 8
                        invariant
                            hi <= 8,
                            v == self@,
                            position_invariant(v),
                            ep_sound(v),
                            v.at(src) == Some(Piece(PieceType::Knight, self.active_player)),
                            all_emitted_ok(v, legal_moves@),
                            mono(list_before, legal_moves@),
                            forall|j: int| 0 <= j < hi ==> ({
                                let f = src.0.as_int() + #[trigger] spec_knight_hop(j).0;
                                let r = src.1.as_int() + spec_knight_hop(j).1;
                                on_board(f, r) ==> covers_normal(v, legal_moves@, src, sq_at(f, r))
                            }),
                        decreases 8 - hi,
                    {
                        let hop = knight_hop(hi);
                        let ghost mid = legal_moves@;
                        if let Some(dest) = pos_plus(src, hop) {
                            proof {
                                assert(is_knight_pattern(src, dest));
                            }
                            try_push_candidate(self, src, dest, &mut legal_moves);
                        }
                        proof {
                            lemma_hop_step_mono(v, mid, legal_moves@, src, hi as int);
                        }
                        hi = hi + 1;
                    }
                    proof {
                        lemma_knight_src_covered(v, legal_moves@, src);
                    }
                },
                PieceType::King => {
                    let mut di: usize = 0;
                    while di < 8
                        invariant
                            di <= 8,
                            v == self@,
                            position_invariant(v),
                            ep_sound(v),
                            v.at(src) == Some(Piece(PieceType::King, self.active_player)),
                            all_emitted_ok(v, legal_moves@),
                            mono(list_before, legal_moves@),
                            forall|j: int| 0 <= j < di ==> ({
                                let f = src.0.as_int() + #[trigger] spec_all_dir(j).0;
                                let r = src.1.as_int() + spec_all_dir(j).1;
                                on_board(f, r) ==> covers_normal(v, legal_moves@, src, sq_at(f, r))
                            }),
                        decreases 8 - di,
                    {
                        let d = all_dir(di);
                        let ghost mid = legal_moves@;
                        if let Some(dest) = pos_plus(src, d) {
                            proof {
                                assert(is_king_pattern(src, dest));
                            }
                            try_push_candidate(self, src, dest, &mut legal_moves);
                        }
                        proof {
                            lemma_dir_step_mono(v, mid, legal_moves@, src, di as int);
                        }
                        di = di + 1;
                    }
                    proof {
                        lemma_king_src_covered(v, legal_moves@, src);
                    }
                },
                PieceType::Pawn => {
                    if src.1 == opp_home_rank {
                        let mut si: usize = 0;
                        while si < 3
                            invariant
                                si <= 3,
                                v == self@,
                                position_invariant(v),
                                ep_sound(v),
                                v.at(src) == Some(Piece(PieceType::Pawn, self.active_player)),
                                -1 <= forward <= 1 && forward != 0,
                                forward as int == pawn_fwd(v.active_player),
                                src.1 == v.active_player.opponent_spec().pawn_start_rank_spec(),
                                all_emitted_ok(v, legal_moves@),
                                mono(list_before, legal_moves@),
                                forall|j: int| 0 <= j < si ==> ({
                                    let st = #[trigger] pawn_step(v.active_player, j);
                                    let f = src.0.as_int() + st.0;
                                    let r = src.1.as_int() + st.1;
                                    on_board(f, r) ==> covers_promos(
                                        v,
                                        legal_moves@,
                                        src,
                                        sq_at(f, r),
                                    )
                                }),
                            decreases 3 - si,
                        {
                            let step: (i8, i8) = match si {
                                0 => (0, forward),
                                1 => (-1, forward),
                                _ => (1, forward),
                            };
                            let ghost mid = legal_moves@;
                            if let Some(dest) = pos_plus(src, step) {
                                proof {
                                    assert(crate::square_utils::is_pawn_pattern(
                                        src,
                                        dest,
                                        self.active_player,
                                    ));
                                }
                                self.try_add_promotion_moves(src, dest, &mut legal_moves);
                            }
                            proof {
                                lemma_pawn_step_mono(v, mid, legal_moves@, src, si as int, true);
                            }
                            si = si + 1;
                        }
                        proof {
                            lemma_pawn_promo_src_covered(v, legal_moves@, src);
                        }
                    } else if src.1 == home_rank {
                        let mut si: usize = 0;
                        while si < 4
                            invariant
                                si <= 4,
                                v == self@,
                                position_invariant(v),
                                ep_sound(v),
                                v.at(src) == Some(Piece(PieceType::Pawn, self.active_player)),
                                -1 <= forward <= 1 && forward != 0,
                                forward as int == pawn_fwd(v.active_player),
                                src.1 == v.active_player.pawn_start_rank_spec(),
                                all_emitted_ok(v, legal_moves@),
                                mono(list_before, legal_moves@),
                                forall|j: int| 0 <= j < si ==> ({
                                    let st = #[trigger] pawn_step(v.active_player, j);
                                    let f = src.0.as_int() + st.0;
                                    let r = src.1.as_int() + st.1;
                                    on_board(f, r) ==> covers_normal(
                                        v,
                                        legal_moves@,
                                        src,
                                        sq_at(f, r),
                                    )
                                }),
                            decreases 4 - si,
                        {
                            let step: (i8, i8) = match si {
                                0 => (0, forward),
                                1 => (-1, forward),
                                2 => (1, forward),
                                _ => (0, 2 * forward),
                            };
                            let ghost mid = legal_moves@;
                            if let Some(dest) = pos_plus(src, step) {
                                proof {
                                    assert(crate::square_utils::is_pawn_pattern(
                                        src,
                                        dest,
                                        self.active_player,
                                    ));
                                }
                                try_push_candidate(self, src, dest, &mut legal_moves);
                            }
                            proof {
                                lemma_pawn_step_mono(v, mid, legal_moves@, src, si as int, false);
                            }
                            si = si + 1;
                        }
                        proof {
                            lemma_pawn_src_covered(v, legal_moves@, src, true);
                        }
                    } else {
                        let mut si: usize = 0;
                        while si < 3
                            invariant
                                si <= 3,
                                v == self@,
                                position_invariant(v),
                                ep_sound(v),
                                v.at(src) == Some(Piece(PieceType::Pawn, self.active_player)),
                                -1 <= forward <= 1 && forward != 0,
                                forward as int == pawn_fwd(v.active_player),
                                src.1 != v.active_player.opponent_spec().pawn_start_rank_spec(),
                                src.1 != v.active_player.pawn_start_rank_spec(),
                                all_emitted_ok(v, legal_moves@),
                                mono(list_before, legal_moves@),
                                forall|j: int| 0 <= j < si ==> ({
                                    let st = #[trigger] pawn_step(v.active_player, j);
                                    let f = src.0.as_int() + st.0;
                                    let r = src.1.as_int() + st.1;
                                    on_board(f, r) ==> covers_normal(
                                        v,
                                        legal_moves@,
                                        src,
                                        sq_at(f, r),
                                    )
                                }),
                            decreases 3 - si,
                        {
                            let step: (i8, i8) = match si {
                                0 => (0, forward),
                                1 => (-1, forward),
                                _ => (1, forward),
                            };
                            let ghost mid = legal_moves@;
                            if let Some(dest) = pos_plus(src, step) {
                                proof {
                                    assert(crate::square_utils::is_pawn_pattern(
                                        src,
                                        dest,
                                        self.active_player,
                                    ));
                                }
                                try_push_candidate(self, src, dest, &mut legal_moves);
                            }
                            proof {
                                lemma_pawn_step_mono(v, mid, legal_moves@, src, si as int, false);
                            }
                            si = si + 1;
                        }
                        proof {
                            lemma_pawn_src_covered(v, legal_moves@, src, false);
                        }
                    }
                },
            }
            proof {
                assert forall|s2: Square|
                    s2.as_index() < piece_iter.square_iter.current implies #[trigger] src_covered(
                    v,
                    legal_moves@,
                    s2,
                ) by {
                    if s2 == src {
                    } else if s2.as_index() < scan_from {
                        lemma_src_covered_mono(v, list_before, legal_moves@, s2);
                    } else {
                        assert(!it_before.mine_at(s2.as_index()));
                        assert(!(v.at(square_of_index(s2.as_index())) matches Some(p) && p.1
                            == self.active_player));
                        lemma_src_vacuous_or_seen(
                            v,
                            legal_moves@,
                            s2,
                            scan_from,
                            piece_iter.square_iter.current as int - 1,
                            self.active_player,
                        );
                    }
                }
            }
        }
        let ghost after_pieces = legal_moves@;
        let can_ks = can_castle_kingside(self);
        if can_ks {
            let lm = LegalMove::CastleKingside {
                castle_mask: self.castling_rights & self.active_player.castle_bit_mask(),
                prior_en_passant: self.en_passant_target,
            };
            proof {
                assert(legal_from_pseudolegal_spec(v, Move::CastleKingside) == Some(lm)
                    && pseudolegal_pre(v, Move::CastleKingside));
                assert(emitted_ok(v, lm));
            }
            legal_moves.push(lm);
        }
        let ghost after_ks = legal_moves@;
        let can_qs = can_castle_queenside(self);
        if can_qs {
            let lm = LegalMove::CastleQueenside {
                castle_mask: self.castling_rights & self.active_player.castle_bit_mask(),
                prior_en_passant: self.en_passant_target,
            };
            proof {
                assert(legal_from_pseudolegal_spec(v, Move::CastleQueenside) == Some(lm)
                    && pseudolegal_pre(v, Move::CastleQueenside));
                assert(emitted_ok(v, lm));
            }
            legal_moves.push(lm);
        }
        proof {
            lemma_prefix_mono(after_pieces, after_ks);
            lemma_prefix_mono(after_ks, legal_moves@);
            assert forall|m: Move| #[trigger] emits(v, m) implies legal_moves@.contains(
                legal_from_pseudolegal_spec(v, m)->0,
            ) by {
                match m {
                    Move::CastleKingside => {
                        assert(can_ks);
                        assert(after_ks[after_pieces.len() as int]
                            == legal_from_pseudolegal_spec(v, m)->0);
                        assert(after_ks.contains(legal_from_pseudolegal_spec(v, m)->0));
                    },
                    Move::CastleQueenside => {
                        assert(can_qs);
                        assert(legal_moves@[after_ks.len() as int] == legal_from_pseudolegal_spec(
                            v,
                            m,
                        )->0);
                    },
                    _ => {
                        lemma_emits_src_facts(v, m);
                        let src = move_src(m)->0;
                        assert(src_covered(v, after_pieces, src));
                        assert(after_pieces.contains(legal_from_pseudolegal_spec(v, m)->0));
                    },
                }
            }
        }
        legal_moves
    }

    /// Whether the side to move has any legal move at all: exactly when
    /// some candidate is accepted.
    pub fn has_legal_moves(&self) -> (r: bool)
        requires
            position_invariant(self@),
            ep_sound(self@),
        ensures
            r == exists|m: Move| #[trigger] emits(self@, m),
    {
        let moves = self.get_legal_moves();
        if moves.len() > 0 {
            proof {
                assert(emitted_ok(self@, moves@[0]));
                let m = choose|m: Move|
                    #[trigger] legal_from_pseudolegal_spec(self@, m) == Some(moves@[0])
                        && pseudolegal_pre(self@, m);
                assert(emits(self@, m));
            }
            true
        } else {
            proof {
                if exists|m: Move| #[trigger] emits(self@, m) {
                    let m = choose|m: Move| #[trigger] emits(self@, m);
                    assert(moves@.contains(legal_from_pseudolegal_spec(self@, m)->0));
                }
            }
            false
        }
    }

    /// The state of the game: mate exactly when the mover has no accepted
    /// move and stands in check, stalemate exactly when it has none and
    /// does not, and play goes on exactly when it has one.
    pub fn get_gamestate(&self) -> (r: GameState)
        requires
            position_invariant(self@),
            ep_sound(self@),
        ensures
            r == GameState::Mated(self.active_player) <==> (!(exists|m: Move|
                #[trigger] emits(self@, m)) && in_check(self@)),
            r == GameState::Stalemate <==> (!(exists|m: Move| #[trigger] emits(self@, m))
                && !in_check(self@)),
            r == GameState::InProgress <==> exists|m: Move| #[trigger] emits(self@, m),
    {
        if !self.has_legal_moves() {
            if is_king_in_check(self) {
                GameState::Mated(self.active_player)
            } else {
                GameState::Stalemate
            }
        } else {
            GameState::InProgress
        }
    }
}

/// How far forward the mover's pawns step.
pub open spec fn pawn_fwd(c: Color) -> int {
    match c {
        Color::White => 1,
        Color::Black => -1,
    }
}

/// The pawn steps the listing tries, in order: straight, the two captures,
/// and the double push.
pub open spec fn pawn_step(c: Color, j: int) -> (int, int) {
    if j == 0 { (0, pawn_fwd(c)) }
    else if j == 1 { (-1, pawn_fwd(c)) }
    else if j == 2 { (1, pawn_fwd(c)) }
    else { (0, 2 * pawn_fwd(c)) }
}

/// Coverage of a square is vacuous where no mover's piece stands; squares
/// an iterator pass skipped hold none.
proof fn lemma_src_vacuous_or_seen(
    v: crate::board::BoardView,
    s: Seq<LegalMove>,
    src: Square,
    lo: int,
    hi: int,
    player: Color,
)
    requires
        player == v.active_player,
        lo <= src.as_index() < hi ==> !(v.at(square_of_index(src.as_index())) matches Some(p)
            && p.1 == player),
        src.as_index() >= lo,
        src.as_index() < hi,
    ensures
        src_covered(v, s, src),
{
    assert forall|m: Move|
        #[trigger] emits(v, m) && move_src(m) == Some(src) implies s.contains(
        legal_from_pseudolegal_spec(v, m)->0,
    ) by {
        lemma_emits_src_facts(v, m);
        assert(square_of_index(src.as_index()) == src);
        assert(false);
    }
}

/// Coverage survives extending the list.
proof fn lemma_src_covered_mono(
    v: crate::board::BoardView,
    a: Seq<LegalMove>,
    b: Seq<LegalMove>,
    src: Square,
)
    requires
        src_covered(v, a, src),
        mono(a, b),
    ensures
        src_covered(v, b, src),
{
    assert forall|m: Move|
        #[trigger] emits(v, m) && move_src(m) == Some(src) implies b.contains(
        legal_from_pseudolegal_spec(v, m)->0,
    ) by {
        assert(a.contains(legal_from_pseudolegal_spec(v, m)->0));
    }
}

/// Ray coverage survives extending the list.
proof fn lemma_dir_covered_mono(
    v: crate::board::BoardView,
    a: Seq<LegalMove>,
    b: Seq<LegalMove>,
    src: Square,
    lo: int,
    upto: int,
)
    requires
        forall|j: int| lo <= j < upto ==> #[trigger] dir_covered(v, a, src, j),
        mono(a, b),
    ensures
        forall|j: int| lo <= j < upto ==> #[trigger] dir_covered(v, b, src, j),
{
    assert forall|j: int| lo <= j < upto implies #[trigger] dir_covered(v, b, src, j) by {
        assert(dir_covered(v, a, src, j));
        assert forall|dest: Square|
            #[trigger] in_dir(src, dest, spec_all_dir(j).0, spec_all_dir(j).1) implies covers_normal(
            v,
            b,
            src,
            dest,
        ) by {
            assert(covers_normal(v, a, src, dest));
        }
    }
}

/// A slider's accepted moves are all ray moves, so ray coverage of its
/// directions covers the square.
proof fn lemma_slider_src_covered(
    v: crate::board::BoardView,
    s: Seq<LegalMove>,
    src: Square,
    piece: PieceType,
)
    requires
        v.at(src) == Some(Piece(piece, v.active_player)),
        piece == PieceType::Queen || piece == PieceType::Rook || piece == PieceType::Bishop,
        piece == PieceType::Queen ==> forall|j: int| 0 <= j < 8 ==> #[trigger] dir_covered(
            v,
            s,
            src,
            j,
        ),
        piece == PieceType::Rook ==> forall|j: int| 0 <= j < 4 ==> #[trigger] dir_covered(
            v,
            s,
            src,
            j,
        ),
        piece == PieceType::Bishop ==> forall|j: int| 4 <= j < 8 ==> #[trigger] dir_covered(
            v,
            s,
            src,
            j,
        ),
    ensures
        src_covered(v, s, src),
{
    assert forall|m: Move|
        #[trigger] emits(v, m) && move_src(m) == Some(src) implies s.contains(
        legal_from_pseudolegal_spec(v, m)->0,
    ) by {
        lemma_emits_src_facts(v, m);
        match m {
            Move::Normal { src: s2, dest } => {
                lemma_aligned_to_dir(src, dest);
                let j = choose|j: int|
                    0 <= j < 8 && #[trigger] in_dir(
                        src,
                        dest,
                        spec_all_dir(j).0,
                        spec_all_dir(j).1,
                    ) && (piece == PieceType::Queen || (piece == PieceType::Rook && j < 4) || (
                    piece == PieceType::Bishop && j >= 4));
                assert(dir_covered(v, s, src, j));
                assert(covers_normal(v, s, src, dest));
            },
            Move::Promotion { .. } => {
                assert(false);
            },
            _ => {
            },
        }
    }
}

/// Per-hop coverage survives extending the list.
proof fn lemma_hop_step_mono(
    v: crate::board::BoardView,
    a: Seq<LegalMove>,
    b: Seq<LegalMove>,
    src: Square,
    upto: int,
)
    requires
        forall|j: int| 0 <= j < upto ==> ({
            let f = src.0.as_int() + #[trigger] spec_knight_hop(j).0;
            let r = src.1.as_int() + spec_knight_hop(j).1;
            on_board(f, r) ==> covers_normal(v, a, src, sq_at(f, r))
        }),
        mono(a, b),
    ensures
        forall|j: int| 0 <= j < upto ==> ({
            let f = src.0.as_int() + #[trigger] spec_knight_hop(j).0;
            let r = src.1.as_int() + spec_knight_hop(j).1;
            on_board(f, r) ==> covers_normal(v, b, src, sq_at(f, r))
        }),
{
    assert forall|j: int| 0 <= j < upto implies ({
        let f = src.0.as_int() + #[trigger] spec_knight_hop(j).0;
        let r = src.1.as_int() + spec_knight_hop(j).1;
        on_board(f, r) ==> covers_normal(v, b, src, sq_at(f, r))
    }) by {
        let f = src.0.as_int() + spec_knight_hop(j).0;
        let r = src.1.as_int() + spec_knight_hop(j).1;
        if on_board(f, r) {
            assert(covers_normal(v, a, src, sq_at(f, r)));
        }
    }
}

/// Per-direction single-step coverage survives extending the list.
proof fn lemma_dir_step_mono(
    v: crate::board::BoardView,
    a: Seq<LegalMove>,
    b: Seq<LegalMove>,
    src: Square,
    upto: int,
)
    requires
        forall|j: int| 0 <= j < upto ==> ({
            let f = src.0.as_int() + #[trigger] spec_all_dir(j).0;
            let r = src.1.as_int() + spec_all_dir(j).1;
            on_board(f, r) ==> covers_normal(v, a, src, sq_at(f, r))
        }),
        mono(a, b),
    ensures
        forall|j: int| 0 <= j < upto ==> ({
            let f = src.0.as_int() + #[trigger] spec_all_dir(j).0;
            let r = src.1.as_int() + spec_all_dir(j).1;
            on_board(f, r) ==> covers_normal(v, b, src, sq_at(f, r))
        }),
{
    assert forall|j: int| 0 <= j < upto implies ({
        let f = src.0.as_int() + #[trigger] spec_all_dir(j).0;
        let r = src.1.as_int() + spec_all_dir(j).1;
        on_board(f, r) ==> covers_normal(v, b, src, sq_at(f, r))
    }) by {
        let f = src.0.as_int() + spec_all_dir(j).0;
        let r = src.1.as_int() + spec_all_dir(j).1;
        if on_board(f, r) {
            assert(covers_normal(v, a, src, sq_at(f, r)));
        }
    }
}

/// Per-pawn-step coverage survives extending the list.
proof fn lemma_pawn_step_mono(
    v: crate::board::BoardView,
    a: Seq<LegalMove>,
    b: Seq<LegalMove>,
    src: Square,
    upto: int,
    promos: bool,
)
    requires
        forall|j: int| 0 <= j < upto ==> ({
            let st = #[trigger] pawn_step(v.active_player, j);
            let f = src.0.as_int() + st.0;
            let r = src.1.as_int() + st.1;
            on_board(f, r) ==> (if promos {
                covers_promos(v, a, src, sq_at(f, r))
            } else {
                covers_normal(v, a, src, sq_at(f, r))
            })
        }),
        mono(a, b),
    ensures
        forall|j: int| 0 <= j < upto ==> ({
            let st = #[trigger] pawn_step(v.active_player, j);
            let f = src.0.as_int() + st.0;
            let r = src.1.as_int() + st.1;
            on_board(f, r) ==> (if promos {
                covers_promos(v, b, src, sq_at(f, r))
            } else {
                covers_normal(v, b, src, sq_at(f, r))
            })
        }),
{
    assert forall|j: int| 0 <= j < upto implies ({
        let st = #[trigger] pawn_step(v.active_player, j);
        let f = src.0.as_int() + st.0;
        let r = src.1.as_int() + st.1;
        on_board(f, r) ==> (if promos {
            covers_promos(v, b, src, sq_at(f, r))
        } else {
            covers_normal(v, b, src, sq_at(f, r))
        })
    }) by {
        let st = pawn_step(v.active_player, j);
        let f = src.0.as_int() + st.0;
        let r = src.1.as_int() + st.1;
        if on_board(f, r) {
            let dest = sq_at(f, r);
            if promos {
                assert(covers_promos(v, a, src, dest));
                assert forall|pp: PromotionPieceType|
                    #[trigger] legal_from_pseudolegal_spec(
                        v,
                        Move::Promotion { src, dest, promotion: pp },
                    ) is Some implies b.contains(
                    legal_from_pseudolegal_spec(
                        v,
                        Move::Promotion { src, dest, promotion: pp },
                    )->0,
                ) by {
                    assert(a.contains(
                        legal_from_pseudolegal_spec(
                            v,
                            Move::Promotion { src, dest, promotion: pp },
                        )->0,
                    ));
                }
            } else {
                assert(covers_normal(v, a, src, dest));
            }
        }
    }
}

/// A knight's accepted moves all land on its eight hops.
proof fn lemma_knight_src_covered(v: crate::board::BoardView, s: Seq<LegalMove>, src: Square)
    requires
        v.at(src) == Some(Piece(PieceType::Knight, v.active_player)),
        forall|j: int| 0 <= j < 8 ==> ({
            let f = src.0.as_int() + #[trigger] spec_knight_hop(j).0;
            let r = src.1.as_int() + spec_knight_hop(j).1;
            on_board(f, r) ==> covers_normal(v, s, src, sq_at(f, r))
        }),
    ensures
        src_covered(v, s, src),
{
    assert forall|m: Move|
        #[trigger] emits(v, m) && move_src(m) == Some(src) implies s.contains(
        legal_from_pseudolegal_spec(v, m)->0,
    ) by {
        lemma_emits_src_facts(v, m);
        match m {
            Move::Normal { src: s2, dest } => {
                assert(is_knight_pattern(dest, src));
                crate::board_utils::lemma_knight_coverage(src, dest);
                let j = choose|j: int|
                    0 <= j < 8 && on_board(
                        src.0.as_int() + spec_knight_hop(j).0,
                        src.1.as_int() + spec_knight_hop(j).1,
                    ) && dest == sq_at(
                        #[trigger] src.0.as_int() + spec_knight_hop(j).0,
                        src.1.as_int() + spec_knight_hop(j).1,
                    );
                assert(covers_normal(v, s, src, dest));
            },
            Move::Promotion { .. } => {
                assert(false);
            },
            _ => {
            },
        }
    }
}

/// A king's accepted moves all land one step away.
proof fn lemma_king_src_covered(v: crate::board::BoardView, s: Seq<LegalMove>, src: Square)
    requires
        v.at(src) == Some(Piece(PieceType::King, v.active_player)),
        forall|j: int| 0 <= j < 8 ==> ({
            let f = src.0.as_int() + #[trigger] spec_all_dir(j).0;
            let r = src.1.as_int() + spec_all_dir(j).1;
            on_board(f, r) ==> covers_normal(v, s, src, sq_at(f, r))
        }),
    ensures
        src_covered(v, s, src),
{
    assert forall|m: Move|
        #[trigger] emits(v, m) && move_src(m) == Some(src) implies s.contains(
        legal_from_pseudolegal_spec(v, m)->0,
    ) by {
        lemma_emits_src_facts(v, m);
        match m {
            Move::Normal { src: s2, dest } => {
                lemma_king_to_dir(src, dest);
                let j = choose|j: int|
                    0 <= j < 8 && on_board(
                        src.0.as_int() + spec_all_dir(j).0,
                        src.1.as_int() + spec_all_dir(j).1,
                    ) && dest == sq_at(
                        #[trigger] src.0.as_int() + spec_all_dir(j).0,
                        src.1.as_int() + spec_all_dir(j).1,
                    );
                assert(covers_normal(v, s, src, dest));
            },
            Move::Promotion { .. } => {
                assert(false);
            },
            _ => {
            },
        }
    }
}

/// A pawn's accepted plain moves from a rank short of promotion all land on
/// the tried steps, and no promotion is accepted there.
proof fn lemma_pawn_src_covered(
    v: crate::board::BoardView,
    s: Seq<LegalMove>,
    src: Square,
    at_start: bool,
)
    requires
        v.at(src) == Some(Piece(PieceType::Pawn, v.active_player)),
        src.1 != v.active_player.opponent_spec().pawn_start_rank_spec(),
        at_start == (src.1 == v.active_player.pawn_start_rank_spec()),
        forall|j: int| 0 <= j < (if at_start { 4int } else { 3int }) ==> ({
            let st = #[trigger] pawn_step(v.active_player, j);
            let f = src.0.as_int() + st.0;
            let r = src.1.as_int() + st.1;
            on_board(f, r) ==> covers_normal(v, s, src, sq_at(f, r))
        }),
    ensures
        src_covered(v, s, src),
{
    let me = v.active_player;
    assert forall|m: Move|
        #[trigger] emits(v, m) && move_src(m) == Some(src) implies s.contains(
        legal_from_pseudolegal_spec(v, m)->0,
    ) by {
        lemma_emits_src_facts(v, m);
        match m {
            Move::Normal { src: s2, dest } => {
                let dx = d_file(src, dest);
                let dy = d_rank(src, dest);
                if dy == 2 * pawn_fwd(me) {
                    assert(at_start);
                    assert(pawn_step(me, 3) == (0int, dy));
                    assert(dest == sq_at(src.0.as_int() + 0, src.1.as_int() + dy));
                    assert(covers_normal(v, s, src, dest));
                } else {
                    let j: int = if dx == 0 { 0 } else if dx == -1 { 1 } else { 2 };
                    assert(pawn_step(me, j) == (dx, dy));
                    assert(dest == sq_at(src.0.as_int() + dx, src.1.as_int() + dy));
                    assert(covers_normal(v, s, src, dest));
                }
            },
            Move::Promotion { src: s2, dest, .. } => {
                let dy = d_rank(src, dest);
                assert(is_pattern(src, dest, PieceType::Pawn, me));
                assert(crate::square_utils::is_pawn_pattern(src, dest, me));
                assert(crate::move_checking::is_promotion_move_spec(v, s2, dest));
                if dy == 2 * pawn_fwd(me) {
                    assert(src.1 == me.pawn_start_rank_spec());
                    assert(false);
                } else {
                    assert(dy == pawn_fwd(me));
                    assert(src.1 == me.opponent_spec().pawn_start_rank_spec());
                    assert(false);
                }
            },
            _ => {
            },
        }
    }
}

/// A pawn on the rank before promotion has only promotion moves, and they
/// all land on the tried steps.
proof fn lemma_pawn_promo_src_covered(v: crate::board::BoardView, s: Seq<LegalMove>, src: Square)
    requires
        v.at(src) == Some(Piece(PieceType::Pawn, v.active_player)),
        src.1 == v.active_player.opponent_spec().pawn_start_rank_spec(),
        forall|j: int| 0 <= j < 3 ==> ({
            let st = #[trigger] pawn_step(v.active_player, j);
            let f = src.0.as_int() + st.0;
            let r = src.1.as_int() + st.1;
            on_board(f, r) ==> covers_promos(v, s, src, sq_at(f, r))
        }),
    ensures
        src_covered(v, s, src),
{
    let me = v.active_player;
    assert forall|m: Move|
        #[trigger] emits(v, m) && move_src(m) == Some(src) implies s.contains(
        legal_from_pseudolegal_spec(v, m)->0,
    ) by {
        lemma_emits_src_facts(v, m);
        match m {
            Move::Normal { src: s2, dest } => {
                assert(crate::move_checking::is_promotion_move_spec(v, s2, dest));
                assert(false);
            },
            Move::Promotion { src: s2, dest, promotion } => {
                let dx = d_file(src, dest);
                let dy = d_rank(src, dest);
                assert(dy == pawn_fwd(me));
                let j: int = if dx == 0 { 0 } else if dx == -1 { 1 } else { 2 };
                assert(pawn_step(me, j) == (dx, dy));
                assert(dest == sq_at(src.0.as_int() + dx, src.1.as_int() + dy));
                assert(covers_promos(v, s, src, dest));
            },
            _ => {
            },
        }
    }
}

} // verus!
