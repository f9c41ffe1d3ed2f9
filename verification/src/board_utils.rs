//! Attack detection: whether a square is reached by any piece of a given
//! color, stated declaratively and decided by walking outward from the
//! square.

use vstd::prelude::*;

use crate::board::Board;
use crate::models::{square_of_index, Color, ColorProps, Piece, PieceType, Square};
use crate::square_utils::{
    abs_of, between_sq, d_file, d_rank, is_bishop_pattern, is_king_pattern, is_knight_pattern,
    is_rook_pattern, knight_hop, on_board, path_clear, pos_plus, slide_dist, spec_all_dir,
    spec_knight_hop, sq_at, SquareIter,
};

verus! {

/// A pawn of color `c` on `s` attacks `t`: one square diagonally forward.
pub open spec fn pawn_attacks(s: Square, c: Color, t: Square) -> bool {
    abs_of(d_file(s, t)) == 1 && d_rank(s, t) == (match c {
        Color::White => 1int,
        Color::Black => -1int,
    })
}

/// The piece `p` standing on `s` attacks `t` on the given board: the movement
/// pattern matches and, for sliding pieces, nothing stands strictly between.
pub open spec fn piece_attacks(sq: Seq<Option<Piece>>, s: Square, p: Piece, t: Square) -> bool {
    match p.0 {
        PieceType::Pawn => pawn_attacks(s, p.1, t),
        PieceType::Knight => is_knight_pattern(s, t),
        PieceType::King => s != t && is_king_pattern(s, t),
        PieceType::Bishop => s != t && is_bishop_pattern(s, t) && path_clear(sq, s, t),
        PieceType::Rook => s != t && is_rook_pattern(s, t) && path_clear(sq, s, t),
        PieceType::Queen => s != t && (is_rook_pattern(s, t) || is_bishop_pattern(s, t))
            && path_clear(sq, s, t),
    }
}

/// Some piece of color `attacker` attacks `t`. This consults only the piece
/// placement: neither the side to move nor the en-passant target enters.
pub open spec fn attacked(sq: Seq<Option<Piece>>, attacker: Color, t: Square) -> bool {
    exists|s: Square|
        {
            &&& #[trigger] sq[s.as_index()] is Some
            &&& (sq[s.as_index()]->0).1 == attacker
            &&& piece_attacks(sq, s, sq[s.as_index()]->0, t)
        }
}

/// `s` lies on the ray leaving `t` in direction `(dx, dy)`.
pub open spec fn in_dir(t: Square, s: Square, dx: int, dy: int) -> bool {
    let df = d_file(t, s);
    let dr = d_rank(t, s);
    &&& !(df == 0 && dr == 0)
    &&& (if dx > 0 { df > 0 } else if dx < 0 { df < 0 } else { df == 0 })
    &&& (if dy > 0 { dr > 0 } else if dy < 0 { dr < 0 } else { dr == 0 })
    &&& (dx != 0 && dy != 0 ==> abs_of(df) == abs_of(dr))
}

/// Some piece of `attacker` attacks `t` from the ray in direction `(dx, dy)`.
pub open spec fn dir_attacked(
    sq: Seq<Option<Piece>>,
    attacker: Color,
    t: Square,
    dx: int,
    dy: int,
) -> bool {
    exists|s: Square|
        {
            &&& #[trigger] in_dir(t, s, dx, dy)
            &&& sq[s.as_index()] is Some
            &&& (sq[s.as_index()]->0).1 == attacker
            &&& piece_attacks(sq, s, sq[s.as_index()]->0, t)
        }
}

/// A knight of `attacker` attacks `t`.
pub open spec fn knight_attacked(sq: Seq<Option<Piece>>, attacker: Color, t: Square) -> bool {
    exists|s: Square|
        #[trigger] is_knight_pattern(s, t) && sq[s.as_index()] == Some(
            Piece(PieceType::Knight, attacker),
        )
}

/// The file coordinate `k` steps from `t` in direction `dx`.
pub open spec fn ray_f(t: Square, dx: int, k: int) -> int {
    t.0.as_int() + (if dx > 0 { k } else if dx < 0 { -k } else { 0 })
}

/// The rank coordinate `k` steps from `t` in direction `dy`.
pub open spec fn ray_r(t: Square, dy: int, k: int) -> int {
    t.1.as_int() + (if dy > 0 { k } else if dy < 0 { -k } else { 0 })
}

/// A square on the ray is `in_dir`, and the squares it shadows are the
/// earlier ray squares.
pub proof fn lemma_ray_props(t: Square, dx: int, dy: int, k: int)
    requires
        -1 <= dx <= 1,
        -1 <= dy <= 1,
        !(dx == 0 && dy == 0),
        1 <= k,
        on_board(ray_f(t, dx, k), ray_r(t, dy, k)),
    ensures
        in_dir(t, sq_at(ray_f(t, dx, k), ray_r(t, dy, k)), dx, dy),
        slide_dist(sq_at(ray_f(t, dx, k), ray_r(t, dy, k)), t) == k,
        forall|j: int| 1 <= j < k ==> #[trigger] between_sq(
            sq_at(ray_f(t, dx, k), ray_r(t, dy, k)),
            t,
            j,
        ) == sq_at(ray_f(t, dx, k - j), ray_r(t, dy, k - j)),
{
    let s = sq_at(ray_f(t, dx, k), ray_r(t, dy, k));
    assert(s.0.as_int() == ray_f(t, dx, k));
    assert(s.1.as_int() == ray_r(t, dy, k));
    assert forall|j: int| 1 <= j < k implies #[trigger] between_sq(s, t, j) == sq_at(
        ray_f(t, dx, k - j),
        ray_r(t, dy, k - j),
    ) by {
        assert(on_board(ray_f(t, dx, k - j), ray_r(t, dy, k - j)));
    }
}

/// Every square on the ray from `t` is reached at its slide distance.
pub proof fn lemma_in_dir_to_ray(t: Square, s: Square, dx: int, dy: int)
    requires
        -1 <= dx <= 1,
        -1 <= dy <= 1,
        !(dx == 0 && dy == 0),
        in_dir(t, s, dx, dy),
    ensures
        ({
            let k = slide_dist(t, s);
            &&& 1 <= k <= 7
            &&& s == sq_at(ray_f(t, dx, k), ray_r(t, dy, k))
            &&& on_board(ray_f(t, dx, k), ray_r(t, dy, k))
        }),
{
    let k = slide_dist(t, s);
    assert(s.0.as_int() == ray_f(t, dx, k) && s.1.as_int() == ray_r(t, dy, k));
}

/// Any piece that attacks `t` is either a knight on a knight square or
/// stands on one of the eight rays leaving `t`.
pub proof fn lemma_attack_directions(sq: Seq<Option<Piece>>, attacker: Color, t: Square)
    ensures
        attacked(sq, attacker, t) <==> (knight_attacked(sq, attacker, t) || exists|i: int|
            0 <= i < 8 && #[trigger] dir_attacked(
                sq,
                attacker,
                t,
                spec_all_dir(i).0,
                spec_all_dir(i).1,
            )),
{
    if attacked(sq, attacker, t) {
        let s = choose|s: Square|
            {
                &&& #[trigger] sq[s.as_index()] is Some
                &&& (sq[s.as_index()]->0).1 == attacker
                &&& piece_attacks(sq, s, sq[s.as_index()]->0, t)
            };
        let p = sq[s.as_index()]->0;
        if p.0 == PieceType::Knight {
            assert(knight_attacked(sq, attacker, t));
        } else {
            let df = d_file(t, s);
            let dr = d_rank(t, s);
            let dx: int = if df > 0 { 1 } else if df < 0 { -1 } else { 0 };
            let dy: int = if dr > 0 { 1 } else if dr < 0 { -1 } else { 0 };
            assert(in_dir(t, s, dx, dy));
            let i: int = if dx == 0 && dy == 1 { 0 }
            else if dx == 1 && dy == 0 { 1 }
            else if dx == 0 && dy == -1 { 2 }
            else if dx == -1 && dy == 0 { 3 }
            else if dx == 1 && dy == 1 { 4 }
            else if dx == 1 && dy == -1 { 5 }
            else if dx == -1 && dy == -1 { 6 }
            else { 7 };
            assert(spec_all_dir(i) == (dx, dy));
            assert(dir_attacked(sq, attacker, t, dx, dy));
            assert(0 <= i < 8 && dir_attacked(sq, attacker, t, spec_all_dir(i).0, spec_all_dir(
                i,
            ).1));
        }
    }
    if knight_attacked(sq, attacker, t) {
        let s = choose|s: Square|
            #[trigger] is_knight_pattern(s, t) && sq[s.as_index()] == Some(
                Piece(PieceType::Knight, attacker),
            );
        assert(sq[s.as_index()] is Some && (sq[s.as_index()]->0).1 == attacker && piece_attacks(
            sq,
            s,
            sq[s.as_index()]->0,
            t,
        ));
        assert(attacked(sq, attacker, t));
    }
    if exists|i: int|
        0 <= i < 8 && #[trigger] dir_attacked(
            sq,
            attacker,
            t,
            spec_all_dir(i).0,
            spec_all_dir(i).1,
        ) {
        let i = choose|i: int|
            0 <= i < 8 && #[trigger] dir_attacked(
                sq,
                attacker,
                t,
                spec_all_dir(i).0,
                spec_all_dir(i).1,
            );
        let dx = spec_all_dir(i).0;
        let dy = spec_all_dir(i).1;
        let s = choose|s: Square|
            {
                &&& #[trigger] in_dir(t, s, dx, dy)
                &&& sq[s.as_index()] is Some
                &&& (sq[s.as_index()]->0).1 == attacker
                &&& piece_attacks(sq, s, sq[s.as_index()]->0, t)
            };
        assert(attacked(sq, attacker, t));
    }
}

/// Every in-board square a knight's move away is one of the eight hops.
pub proof fn lemma_knight_coverage(t: Square, s: Square)
    requires
        is_knight_pattern(s, t),
    ensures
        exists|i: int|
            0 <= i < 8 && on_board(
                t.0.as_int() + spec_knight_hop(i).0,
                t.1.as_int() + spec_knight_hop(i).1,
            ) && s == sq_at(
                #[trigger] t.0.as_int() + spec_knight_hop(i).0,
                t.1.as_int() + spec_knight_hop(i).1,
            ),
{
    let df = d_file(t, s);
    let dr = d_rank(t, s);
    let i: int = if df == 1 && dr == 2 { 0 }
    else if df == 2 && dr == 1 { 1 }
    else if df == 2 && dr == -1 { 2 }
    else if df == 1 && dr == -2 { 3 }
    else if df == -1 && dr == -2 { 4 }
    else if df == -2 && dr == -1 { 5 }
    else if df == -2 && dr == 1 { 6 }
    else { 7 };
    assert(spec_knight_hop(i) == (df, dr));
    assert(s == sq_at(t.0.as_int() + df, t.1.as_int() + dr));
}

/// The rank direction from which a pawn of color `c` attacks: toward `c`'s
/// own side of the board.
pub open spec fn pawn_home_dir(c: Color) -> int {
    match c {
        Color::White => -1int,
        Color::Black => 1int,
    }
}

/// No square on the ray holds a piece, and the board ends there: nothing
/// attacks along this direction.
proof fn lemma_dir_none_beyond(
    sq: Seq<Option<Piece>>,
    attacker: Color,
    t: Square,
    dx: int,
    dy: int,
    k: int,
)
    requires
        -1 <= dx <= 1,
        -1 <= dy <= 1,
        !(dx == 0 && dy == 0),
        1 <= k <= 7,
        forall|j: int| 1 <= j <= k ==> on_board(ray_f(t, dx, j), ray_r(t, dy, j)) && sq[#[trigger] sq_at(
            ray_f(t, dx, j),
            ray_r(t, dy, j),
        ).as_index()] is None,
        !on_board(ray_f(t, dx, k + 1), ray_r(t, dy, k + 1)),
    ensures
        !dir_attacked(sq, attacker, t, dx, dy),
{
    if dir_attacked(sq, attacker, t, dx, dy) {
        let s = choose|s: Square|
            {
                &&& #[trigger] in_dir(t, s, dx, dy)
                &&& sq[s.as_index()] is Some
                &&& (sq[s.as_index()]->0).1 == attacker
                &&& piece_attacks(sq, s, sq[s.as_index()]->0, t)
            };
        lemma_in_dir_to_ray(t, s, dx, dy);
        let ks = slide_dist(t, s);
        assert(ks <= k);
        assert(sq[s.as_index()] is None);
    }
}

/// The first piece on the ray stands at distance `k`: the direction attacks
/// `t` exactly when that piece does.
proof fn lemma_dir_decided(
    sq: Seq<Option<Piece>>,
    attacker: Color,
    t: Square,
    dx: int,
    dy: int,
    k: int,
)
    requires
        -1 <= dx <= 1,
        -1 <= dy <= 1,
        !(dx == 0 && dy == 0),
        1 <= k <= 7,
        forall|j: int| 1 <= j < k ==> on_board(ray_f(t, dx, j), ray_r(t, dy, j)) && sq[#[trigger] sq_at(
            ray_f(t, dx, j),
            ray_r(t, dy, j),
        ).as_index()] is None,
        on_board(ray_f(t, dx, k), ray_r(t, dy, k)),
        sq[sq_at(ray_f(t, dx, k), ray_r(t, dy, k)).as_index()] is Some,
    ensures
        ({
            let b = sq_at(ray_f(t, dx, k), ray_r(t, dy, k));
            dir_attacked(sq, attacker, t, dx, dy) == ((sq[b.as_index()]->0).1 == attacker
                && piece_attacks(sq, b, sq[b.as_index()]->0, t))
        }),
{
    let b = sq_at(ray_f(t, dx, k), ray_r(t, dy, k));
    lemma_ray_props(t, dx, dy, k);
    if (sq[b.as_index()]->0).1 == attacker && piece_attacks(sq, b, sq[b.as_index()]->0, t) {
        assert(in_dir(t, b, dx, dy));
        assert(dir_attacked(sq, attacker, t, dx, dy));
    }
    if dir_attacked(sq, attacker, t, dx, dy) {
        let s = choose|s: Square|
            {
                &&& #[trigger] in_dir(t, s, dx, dy)
                &&& sq[s.as_index()] is Some
                &&& (sq[s.as_index()]->0).1 == attacker
                &&& piece_attacks(sq, s, sq[s.as_index()]->0, t)
            };
        lemma_in_dir_to_ray(t, s, dx, dy);
        let ks = slide_dist(t, s);
        if ks < k {
            assert(sq[s.as_index()] is None);
        } else if ks == k {
            assert(s == b);
        } else {
            lemma_ray_props(t, dx, dy, ks);
            assert(between_sq(s, t, ks - k) == b);
            assert(!path_clear(sq, s, t));
            let p = sq[s.as_index()]->0;
            assert(slide_dist(s, t) == ks);
            assert(!piece_attacks(sq, s, p, t));
        }
    }
}

/// What an adjacent piece contributes: at one step away, pawns, kings and
/// the matching sliders attack; nothing is in the way.
proof fn lemma_adjacent_hit(
    sq: Seq<Option<Piece>>,
    attacker: Color,
    t: Square,
    dx: int,
    dy: int,
)
    requires
        -1 <= dx <= 1,
        -1 <= dy <= 1,
        !(dx == 0 && dy == 0),
        on_board(ray_f(t, dx, 1), ray_r(t, dy, 1)),
        sq[sq_at(ray_f(t, dx, 1), ray_r(t, dy, 1)).as_index()] is Some,
    ensures
        ({
            let b = sq_at(ray_f(t, dx, 1), ray_r(t, dy, 1));
            let p = sq[b.as_index()]->0;
            piece_attacks(sq, b, p, t) == (if dx != 0 && dy != 0 {
                ||| (p.0 == PieceType::Pawn && dy == pawn_home_dir(p.1))
                ||| p.0 == PieceType::Bishop
                ||| p.0 == PieceType::Queen
                ||| p.0 == PieceType::King
            } else {
                ||| p.0 == PieceType::Rook
                ||| p.0 == PieceType::Queen
                ||| p.0 == PieceType::King
            })
        }),
{
    let b = sq_at(ray_f(t, dx, 1), ray_r(t, dy, 1));
    lemma_ray_props(t, dx, dy, 1);
    assert(slide_dist(b, t) == 1);
    assert(path_clear(sq, b, t));
}

/// What a distant piece on a clear ray contributes: only the sliders whose
/// pattern follows the ray.
proof fn lemma_ray_hit(
    sq: Seq<Option<Piece>>,
    attacker: Color,
    t: Square,
    dx: int,
    dy: int,
    k: int,
)
    requires
        -1 <= dx <= 1,
        -1 <= dy <= 1,
        !(dx == 0 && dy == 0),
        2 <= k <= 7,
        forall|j: int| 1 <= j < k ==> on_board(ray_f(t, dx, j), ray_r(t, dy, j)) && sq[#[trigger] sq_at(
            ray_f(t, dx, j),
            ray_r(t, dy, j),
        ).as_index()] is None,
        on_board(ray_f(t, dx, k), ray_r(t, dy, k)),
        sq[sq_at(ray_f(t, dx, k), ray_r(t, dy, k)).as_index()] is Some,
    ensures
        ({
            let b = sq_at(ray_f(t, dx, k), ray_r(t, dy, k));
            let p = sq[b.as_index()]->0;
            piece_attacks(sq, b, p, t) == (if dx != 0 && dy != 0 {
                p.0 == PieceType::Bishop || p.0 == PieceType::Queen
            } else {
                p.0 == PieceType::Rook || p.0 == PieceType::Queen
            })
        }),
{
    let b = sq_at(ray_f(t, dx, k), ray_r(t, dy, k));
    lemma_ray_props(t, dx, dy, k);
    assert(slide_dist(b, t) == k);
    assert forall|j: int| 1 <= j < slide_dist(b, t) implies sq[#[trigger] between_sq(
        b,
        t,
        j,
    ).as_index()] is None by {
        assert(between_sq(b, t, j) == sq_at(ray_f(t, dx, k - j), ray_r(t, dy, k - j)));
    }
    assert(path_clear(sq, b, t));
}

/// Walks outward from `target` in one direction and reports an attacker of
/// `attacker`'s color on that ray, exactly as `dir_attacked` states.
#[verifier::rlimit(100)]
fn scan_dir(board: &Board, target: Square, dx: i8, dy: i8) -> (r: bool)
    requires
        -1 <= dx <= 1,
        -1 <= dy <= 1,
        !(dx == 0 && dy == 0),
    ensures
        r == dir_attacked(
            board@.squares,
            board.active_player.opponent_spec(),
            target,
            dx as int,
            dy as int,
        ),
{
    let ghost sq = board@.squares;
    let ghost dxi = dx as int;
    let ghost dyi = dy as int;
    let attacker = board.active_player.opponent();
    let diag = dx != 0 && dy != 0;
    let pawn_dy: i8 = match attacker {
        Color::White => -1,
        Color::Black => 1,
    };
    let first = match pos_plus(target, (dx, dy)) {
        Some(p) => p,
        None => {
            proof {
                if dir_attacked(sq, attacker, target, dxi, dyi) {
                    let s = choose|s: Square|
                        {
                            &&& #[trigger] in_dir(target, s, dxi, dyi)
                            &&& sq[s.as_index()] is Some
                            &&& (sq[s.as_index()]->0).1 == attacker
                            &&& piece_attacks(sq, s, sq[s.as_index()]->0, target)
                        };
                    lemma_in_dir_to_ray(target, s, dxi, dyi);
                }
            }
            return false;
        },
    };
    proof {
        lemma_ray_props(target, dxi, dyi, 1);
        assert(first == sq_at(ray_f(target, dxi, 1), ray_r(target, dyi, 1)));
    }
    match board.get_piece_at(first) {
        Some(Piece(piece, owner)) => {
            let hit = if owner == attacker {
                if diag {
                    (piece == PieceType::Pawn && dy == pawn_dy) || piece == PieceType::Bishop
                        || piece == PieceType::Queen || piece == PieceType::King
                } else {
                    piece == PieceType::Rook || piece == PieceType::Queen || piece
                        == PieceType::King
                }
            } else {
                false
            };
            proof {
                lemma_adjacent_hit(sq, attacker, target, dxi, dyi);
                lemma_dir_decided(sq, attacker, target, dxi, dyi, 1);
            }
            hit
        },
        None => {
            let mut cur = first;
            let ghost k: int = 1;
            loop
                invariant
                    -1 <= dx <= 1,
                    -1 <= dy <= 1,
                    !(dx == 0 && dy == 0),
                    dxi == dx as int,
                    dyi == dy as int,
                    sq == board@.squares,
                    attacker == board.active_player.opponent_spec(),
                    diag == (dx != 0 && dy != 0),
                    1 <= k <= 7,
                    cur == sq_at(ray_f(target, dxi, k), ray_r(target, dyi, k)),
                    on_board(ray_f(target, dxi, k), ray_r(target, dyi, k)),
                    forall|j: int| 1 <= j <= k ==> on_board(ray_f(target, dxi, j), ray_r(target, dyi, j))
                        && sq[#[trigger] sq_at(ray_f(target, dxi, j), ray_r(target, dyi, j)).as_index()]
                        is None,
                decreases 8 - k,
            {
                let next = match pos_plus(cur, (dx, dy)) {
                    Some(p) => p,
                    None => {
                        proof {
                            lemma_dir_none_beyond(sq, attacker, target, dxi, dyi, k);
                        }
                        return false;
                    },
                };
                proof {
                    assert(next == sq_at(ray_f(target, dxi, k + 1), ray_r(target, dyi, k + 1)));
                }
                match board.get_piece_at(next) {
                    Some(Piece(piece, owner)) => {
                        let hit = owner == attacker && (if diag {
                            piece == PieceType::Bishop || piece == PieceType::Queen
                        } else {
                            piece == PieceType::Rook || piece == PieceType::Queen
                        });
                        proof {
                            lemma_ray_hit(sq, attacker, target, dxi, dyi, k + 1);
                            lemma_dir_decided(sq, attacker, target, dxi, dyi, k + 1);
                        }
                        return hit;
                    },
                    None => {
                        proof {
                            assert(k + 1 <= 7) by {
                                assert(on_board(
                                    ray_f(target, dxi, k + 1),
                                    ray_r(target, dyi, k + 1),
                                ));
                            }
                        }
                        cur = next;
                        proof {
                            k = k + 1;
                        }
                    },
                }
            }
        },
    }
}

/// Does the opponent of the side to move attack `target`? The answer depends
/// only on the piece placement and on whose turn it is, never on the
/// en-passant state.
pub fn is_square_attacked(board: &Board, target: Square) -> (r: bool)
    ensures
        r == attacked(board@.squares, board.active_player.opponent_spec(), target),
{
    let ghost sq = board@.squares;
    let ghost attacker_g = board.active_player.opponent_spec();
    let attacker = board.active_player.opponent();

    let mut i: usize = 0;
    while i < 8
        invariant
            i <= 8,
            sq == board@.squares,
            attacker_g == board.active_player.opponent_spec(),
            attacker == attacker_g,
            forall|j: int| 0 <= j < i ==> !dir_attacked(
                sq,
                attacker_g,
                target,
                #[trigger] spec_all_dir(j).0,
                spec_all_dir(j).1,
            ),
        decreases 8 - i,
    {
        let (dx, dy) = crate::square_utils::all_dir(i);
        if scan_dir(board, target, dx, dy) {
            proof {
                lemma_attack_directions(sq, attacker_g, target);
            }
            return true;
        }
        i = i + 1;
    }

    let mut h: usize = 0;
    while h < 8
        invariant
            h <= 8,
            sq == board@.squares,
            attacker_g == board.active_player.opponent_spec(),
            attacker == attacker_g,
            forall|j: int| 0 <= j < h ==> ({
                let f = target.0.as_int() + #[trigger] spec_knight_hop(j).0;
                let r = target.1.as_int() + spec_knight_hop(j).1;
                on_board(f, r) ==> sq[sq_at(f, r).as_index()] != Some(
                    Piece(PieceType::Knight, attacker_g),
                )
            }),
            forall|j: int| 0 <= j < 8 ==> !dir_attacked(
                sq,
                attacker_g,
                target,
                #[trigger] spec_all_dir(j).0,
                spec_all_dir(j).1,
            ),
        decreases 8 - h,
    {
        let hop = knight_hop(h);
        if let Some(pos) = pos_plus(target, hop) {
            if let Some(Piece(piece, owner)) = board.get_piece_at(pos) {
                if piece == PieceType::Knight && owner == attacker {
                    proof {
                        assert(is_knight_pattern(pos, target));
                        assert(knight_attacked(sq, attacker_g, target));
                        lemma_attack_directions(sq, attacker_g, target);
                    }
                    return true;
                }
            }
        }
        h = h + 1;
    }
    proof {
        if knight_attacked(sq, attacker_g, target) {
            let s = choose|s: Square|
                #[trigger] is_knight_pattern(s, target) && sq[s.as_index()] == Some(
                    Piece(PieceType::Knight, attacker_g),
                );
            lemma_knight_coverage(target, s);
        }
        lemma_attack_directions(sq, attacker_g, target);
    }
    false
}


/// A null pass: the turn changes hands and the en-passant target is
/// cleared; no piece moves.
pub open spec fn null_pass(v: crate::board::BoardView) -> crate::board::BoardView {
    crate::board::BoardView {
        active_player: v.active_player.opponent_spec(),
        en_passant_target: None,
        ..v
    }
}

/// Symmetry of attack under a null pass: whether a color attacks a square
/// depends on the pieces alone, so passing the turn and clearing the
/// en-passant target changes nothing. The attack routine never consults the
/// side to move for the attacker's pieces: `is_square_attacked` picks the
/// attacker from the side to move, but the relation it decides is this one,
/// which a null pass leaves untouched.
pub proof fn lemma_attack_null_pass(v: crate::board::BoardView, attacker: Color, t: Square)
    ensures
        attacked(null_pass(v).squares, attacker, t) == attacked(v.squares, attacker, t),
{
}

/// A cursor over one player's pieces, in rank-major square order.
pub struct PlayerPieceIter<'a> {
    pub board: &'a Board,
    pub player: Color,
    pub square_iter: SquareIter,
}

impl<'a> PlayerPieceIter<'a> {
    pub fn new(board: &'a Board, player: Color) -> (r: PlayerPieceIter<'a>)
        ensures
            r.board == board,
            r.player == player,
            r.square_iter.current == 0,
    {
        PlayerPieceIter { board, player, square_iter: SquareIter::new() }
    }

    /// A piece of the player stands on the square with this index.
    pub open spec fn mine_at(self, j: int) -> bool {
        self.board@.at(square_of_index(j)) matches Some(p) && p.1 == self.player
    }

    /// The next piece of this player, with its square. Squares passed over
    /// hold no piece of the player, and a `None` means none remain.
    pub fn next(&mut self) -> (r: Option<(PieceType, Square)>)
        requires
            old(self).square_iter.current <= 64,
        ensures
            final(self).board == old(self).board,
            final(self).player == old(self).player,
            final(self).square_iter.current <= 64,
            r is Some ==> final(self).square_iter.current > old(self).square_iter.current,
            r matches Some((piece, s)) ==> old(self).board@.at(s) == Some(
                Piece(piece, old(self).player),
            ) && s == square_of_index(final(self).square_iter.current - 1),
            r is Some ==> forall|j: int|
                old(self).square_iter.current <= j < final(self).square_iter.current - 1
                    ==> !old(self).mine_at(j),
            r is None ==> forall|j: int|
                old(self).square_iter.current <= j < 64 ==> !old(self).mine_at(j),
    {
        loop
            invariant
                self.board == old(self).board,
                self.player == old(self).player,
                old(self).square_iter.current <= self.square_iter.current <= 64,
                forall|j: int|
                    old(self).square_iter.current <= j < self.square_iter.current ==> !old(
                        self,
                    ).mine_at(j),
            decreases 64 - self.square_iter.current,
        {
            let ghost before = self.square_iter.current as int;
            if let Some(square) = self.square_iter.next() {
                if let Some(Piece(piece, owner)) = self.board.get_piece_at(square) {
                    if owner == self.player {
                        return Some((piece, square));
                    }
                }
                proof {
                    assert(!old(self).mine_at(before));
                }
            } else {
                return None;
            }
        }
    }
}

} // verus!
