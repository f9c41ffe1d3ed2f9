//! Board geometry: bounded square arithmetic, movement patterns, and the
//! cursors that walk rays, knight hops and square sequences.

use vstd::prelude::*;

use crate::models::{
    file_of_int, rank_of_int, square_of_index, Color, File, Piece, PieceType, Rank, Square,
};

verus! {

broadcast use vstd::seq_lib::lemma_seq_contains_after_push;

/// Whether integer coordinates lie on the board.
pub open spec fn on_board(f: int, r: int) -> bool {
    0 <= f < 8 && 0 <= r < 8
}

/// The square with the given integer coordinates.
pub open spec fn sq_at(f: int, r: int) -> Square {
    Square(file_of_int(f), rank_of_int(r))
}

/// Signed file distance from `src` to `dest`.
pub open spec fn d_file(src: Square, dest: Square) -> int {
    dest.0.as_int() - src.0.as_int()
}

/// Signed rank distance from `src` to `dest`.
pub open spec fn d_rank(src: Square, dest: Square) -> int {
    dest.1.as_int() - src.1.as_int()
}

pub open spec fn abs_of(a: int) -> int {
    if a < 0 { -a } else { a }
}

pub open spec fn is_rook_pattern(src: Square, dest: Square) -> bool {
    d_file(src, dest) == 0 || d_rank(src, dest) == 0
}

pub open spec fn is_bishop_pattern(src: Square, dest: Square) -> bool {
    abs_of(d_file(src, dest)) == abs_of(d_rank(src, dest))
}

pub open spec fn is_knight_pattern(src: Square, dest: Square) -> bool {
    let ax = abs_of(d_file(src, dest));
    let ay = abs_of(d_rank(src, dest));
    (ax == 2 && ay == 1) || (ax == 1 && ay == 2)
}

pub open spec fn is_king_pattern(src: Square, dest: Square) -> bool {
    abs_of(d_file(src, dest)) <= 1 && abs_of(d_rank(src, dest)) <= 1
}

/// The quiet or capturing single step of a pawn, or its double push from the
/// start rank. Sideways steps are included here; whether they are permitted
/// is decided by the blocking rules.
pub open spec fn is_pawn_pattern(src: Square, dest: Square, player: Color) -> bool {
    let x = d_file(src, dest);
    let y = d_rank(src, dest);
    match player {
        Color::White => (abs_of(x) <= 1 && y == 1) || (x == 0 && y == 2 && src.1 == Rank::_2),
        Color::Black => (abs_of(x) <= 1 && y == -1) || (x == 0 && y == -2 && src.1 == Rank::_7),
    }
}

/// The movement pattern of `piece`, ignoring everything else on the board.
pub open spec fn is_pattern(src: Square, dest: Square, piece: PieceType, player: Color) -> bool {
    match piece {
        PieceType::Queen => is_rook_pattern(src, dest) || is_bishop_pattern(src, dest),
        PieceType::Rook => is_rook_pattern(src, dest),
        PieceType::Bishop => is_bishop_pattern(src, dest),
        PieceType::Knight => is_knight_pattern(src, dest),
        PieceType::King => is_king_pattern(src, dest),
        PieceType::Pawn => is_pawn_pattern(src, dest, player),
    }
}

/// `a` moved `k` steps toward `b`, one coordinate axis at a time.
pub open spec fn toward(a: int, b: int, k: int) -> int {
    if b > a { a + k } else if b < a { a - k } else { a }
}

/// How many king steps lie between two aligned squares.
pub open spec fn slide_dist(src: Square, dest: Square) -> int {
    let ax = abs_of(d_file(src, dest));
    let ay = abs_of(d_rank(src, dest));
    if ax > ay { ax } else { ay }
}

/// The `k`-th square on the straight segment from `src` toward `dest`.
pub open spec fn between_sq(src: Square, dest: Square, k: int) -> Square {
    sq_at(
        toward(src.0.as_int(), dest.0.as_int(), k),
        toward(src.1.as_int(), dest.1.as_int(), k),
    )
}

/// All squares strictly between `src` and `dest` are empty.
pub open spec fn path_clear(sq: Seq<Option<Piece>>, src: Square, dest: Square) -> bool {
    forall|k: int| 1 <= k < slide_dist(src, dest)
        ==> sq[#[trigger] between_sq(src, dest, k).as_index()] is None
}

/// Adds a bounded step to a square; `None` when the result leaves the board.
pub fn pos_plus(pos: Square, step: (i8, i8)) -> (r: Option<Square>)
    requires
        -8 <= step.0 <= 8,
        -8 <= step.1 <= 8,
    ensures
        r is Some <==> on_board(pos.0.as_int() + step.0, pos.1.as_int() + step.1),
        r is Some ==> r->0 == sq_at(pos.0.as_int() + step.0, pos.1.as_int() + step.1),
{
    let new_file = match File::from_i8(pos.0.to_i8() + step.0) {
        Some(file) => file,
        None => return None,
    };
    let new_rank = match Rank::from_i8(pos.1.to_i8() + step.1) {
        Some(rank) => rank,
        None => return None,
    };
    Some(Square(new_file, new_rank))
}

/// Coordinate difference `dest - src`.
pub fn pos_minus(dest: Square, src: Square) -> (r: (i8, i8))
    ensures
        r.0 as int == d_file(src, dest),
        r.1 as int == d_rank(src, dest),
{
    (dest.0.to_i8() - src.0.to_i8(), dest.1.to_i8() - src.1.to_i8())
}

fn is_rook_move(src: Square, dest: Square) -> (r: bool)
    ensures
        r == is_rook_pattern(src, dest),
{
    let (x, y) = pos_minus(dest, src);
    x == 0 || y == 0
}

fn is_bishop_move(src: Square, dest: Square) -> (r: bool)
    ensures
        r == is_bishop_pattern(src, dest),
{
    let (x, y) = pos_minus(dest, src);
    let ax: i8 = if x < 0 { -x } else { x };
    let ay: i8 = if y < 0 { -y } else { y };
    ax == ay
}

fn is_knight_move(src: Square, dest: Square) -> (r: bool)
    ensures
        r == is_knight_pattern(src, dest),
{
    let (x, y) = pos_minus(dest, src);
    let ax: i8 = if x < 0 { -x } else { x };
    let ay: i8 = if y < 0 { -y } else { y };
    (ax == 2 && ay == 1) || (ax == 1 && ay == 2)
}

fn is_king_move(src: Square, dest: Square) -> (r: bool)
    ensures
        r == is_king_pattern(src, dest),
{
    let (x, y) = pos_minus(dest, src);
    let ax: i8 = if x < 0 { -x } else { x };
    let ay: i8 = if y < 0 { -y } else { y };
    ax <= 1 && ay <= 1
}

fn is_pawn_move(src: Square, dest: Square, player: Color) -> (r: bool)
    ensures
        r == is_pawn_pattern(src, dest, player),
{
    let (x, y) = pos_minus(dest, src);
    let ax: i8 = if x < 0 { -x } else { x };
    match player {
        Color::White => (ax <= 1 && y == 1) || (x == 0 && y == 2 && src.1 == Rank::_2),
        Color::Black => (ax <= 1 && y == -1) || (x == 0 && y == -2 && src.1 == Rank::_7),
    }
}

/// Whether this move would carry a pawn onto its promotion rank.
pub open spec fn is_pawn_promotion_spec(dest: Square, piece: PieceType, player: Color) -> bool {
    piece == PieceType::Pawn && match player {
        Color::White => dest.1 == Rank::_8,
        Color::Black => dest.1 == Rank::_1,
    }
}

pub fn is_pawn_promotion(dest: Square, piece: PieceType, player: Color) -> (r: bool)
    ensures
        r == is_pawn_promotion_spec(dest, piece, player),
{
    if !matches!(piece, PieceType::Pawn) {
        return false;
    }
    match player {
        Color::White => matches!(dest.1, Rank::_8),
        Color::Black => matches!(dest.1, Rank::_1),
    }
}

/// Whether the movement pattern of `piece`, owned by `player`, takes it from
/// `src` to `dest`. Blockers and check safety are not considered here.
pub fn is_move_pseudo_legal(src: Square, dest: Square, piece: PieceType, player: Color) -> (r:
    bool)
    ensures
        r == is_pattern(src, dest, piece, player),
{
    match piece {
        PieceType::Queen => is_rook_move(src, dest) || is_bishop_move(src, dest),
        PieceType::Rook => is_rook_move(src, dest),
        PieceType::Bishop => is_bishop_move(src, dest),
        PieceType::Knight => is_knight_move(src, dest),
        PieceType::King => is_king_move(src, dest),
        PieceType::Pawn => is_pawn_move(src, dest, player),
    }
}

/// The four rook directions, by index.
pub open spec fn spec_rook_dir(i: int) -> (int, int) {
    if i == 0 { (0, 1) } else if i == 1 { (1, 0) } else if i == 2 { (0, -1) } else { (-1, 0) }
}

/// The four bishop directions, by index.
pub open spec fn spec_bishop_dir(i: int) -> (int, int) {
    if i == 0 { (1, 1) } else if i == 1 { (1, -1) } else if i == 2 { (-1, -1) } else { (-1, 1) }
}

/// All eight king directions, by index: rook directions first.
pub open spec fn spec_all_dir(i: int) -> (int, int) {
    if i < 4 { spec_rook_dir(i) } else { spec_bishop_dir(i - 4) }
}

/// The candidate steps of a pawn, by index: straight, the two capture
/// steps, then the double push.
pub open spec fn spec_pawn_step(player: Color, i: int) -> (int, int) {
    let f: int = match player {
        Color::White => 1,
        Color::Black => -1,
    };
    if i == 0 { (0, f) } else if i == 1 { (-1, f) } else if i == 2 { (1, f) } else { (0, 2 * f) }
}

/// The eight knight hops, by index.
pub open spec fn spec_knight_hop(i: int) -> (int, int) {
    if i == 0 { (1, 2) }
    else if i == 1 { (2, 1) }
    else if i == 2 { (2, -1) }
    else if i == 3 { (1, -2) }
    else if i == 4 { (-1, -2) }
    else if i == 5 { (-2, -1) }
    else if i == 6 { (-2, 1) }
    else { (-1, 2) }
}

pub fn rook_dir(i: usize) -> (r: (i8, i8))
    requires
        i < 4,
    ensures
        (r.0 as int, r.1 as int) == spec_rook_dir(i as int),
{
    match i {
        0 => (0, 1),
        1 => (1, 0),
        2 => (0, -1),
        _ => (-1, 0),
    }
}

pub fn bishop_dir(i: usize) -> (r: (i8, i8))
    requires
        i < 4,
    ensures
        (r.0 as int, r.1 as int) == spec_bishop_dir(i as int),
{
    match i {
        0 => (1, 1),
        1 => (1, -1),
        2 => (-1, -1),
        _ => (-1, 1),
    }
}

pub fn all_dir(i: usize) -> (r: (i8, i8))
    requires
        i < 8,
    ensures
        (r.0 as int, r.1 as int) == spec_all_dir(i as int),
{
    if i < 4 {
        rook_dir(i)
    } else {
        bishop_dir(i - 4)
    }
}

pub fn knight_hop(i: usize) -> (r: (i8, i8))
    requires
        i < 8,
    ensures
        (r.0 as int, r.1 as int) == spec_knight_hop(i as int),
{
    match i {
        0 => (1, 2),
        1 => (2, 1),
        2 => (2, -1),
        3 => (1, -2),
        4 => (-1, -2),
        5 => (-2, -1),
        6 => (-2, 1),
        _ => (-1, 2),
    }
}

/// A cursor over all 64 squares, in rank-major order.
pub struct SquareIter {
    pub current: usize,
}

impl SquareIter {
    pub fn new() -> (r: SquareIter)
        ensures
            r.current == 0,
    {
        SquareIter { current: 0 }
    }

    pub fn next(&mut self) -> (r: Option<Square>)
        requires
            old(self).current <= 64,
        ensures
            old(self).current < 64 ==> {
                &&& r == Some(square_of_index(old(self).current as int))
                &&& final(self).current == old(self).current + 1
            },
            old(self).current >= 64 ==> r is None && *final(self) == *old(self),
    {
        if self.current < 64 {
            let file = File::from_i8((self.current % 8) as i8).unwrap();
            let rank = Rank::from_i8((self.current / 8) as i8).unwrap();
            self.current = self.current + 1;
            Some(Square(file, rank))
        } else {
            None
        }
    }
}

#[derive(Copy, Clone)]
enum DirSet {
    Rook,
    Bishop,
    All,
}

/// A cursor over a fixed set of directions: the rook's four, the bishop's
/// four, or all eight.
pub struct DirIter {
    current: usize,
    dirs: DirSet,
}

impl DirIter {
    spec fn count(self) -> int {
        match self.dirs {
            DirSet::Rook => 4,
            DirSet::Bishop => 4,
            DirSet::All => 8,
        }
    }

    /// The direction this cursor yields at position `i`.
    pub closed spec fn dir_at(self, i: int) -> (int, int) {
        match self.dirs {
            DirSet::Rook => spec_rook_dir(i),
            DirSet::Bishop => spec_bishop_dir(i),
            DirSet::All => spec_all_dir(i),
        }
    }

    pub closed spec fn position(self) -> int {
        self.current as int
    }

    /// How many directions remain to be yielded.
    pub open spec fn remaining(self) -> int {
        if self.position() <= self.yield_bound() {
            self.yield_bound() - self.position()
        } else {
            0
        }
    }

    /// Total number of directions in the set.
    pub closed spec fn yield_bound(self) -> int {
        self.count()
    }

    pub fn rook() -> (r: DirIter)
        ensures
            r.position() == 0,
            r.yield_bound() == 4,
            forall|i: int| 0 <= i < 4 ==> #[trigger] r.dir_at(i) == spec_rook_dir(i),
    {
        DirIter { current: 0, dirs: DirSet::Rook }
    }

    pub fn bishop() -> (r: DirIter)
        ensures
            r.position() == 0,
            r.yield_bound() == 4,
            forall|i: int| 0 <= i < 4 ==> #[trigger] r.dir_at(i) == spec_bishop_dir(i),
    {
        DirIter { current: 0, dirs: DirSet::Bishop }
    }

    pub fn all() -> (r: DirIter)
        ensures
            r.position() == 0,
            r.yield_bound() == 8,
            forall|i: int| 0 <= i < 8 ==> #[trigger] r.dir_at(i) == spec_all_dir(i),
    {
        DirIter { current: 0, dirs: DirSet::All }
    }

    pub fn next(&mut self) -> (r: Option<(i8, i8)>)
        ensures
            old(self).position() < old(self).yield_bound() ==> ({
                let d = r->0;
                &&& r is Some
                &&& (d.0 as int, d.1 as int) == old(self).dir_at(old(self).position())
                &&& -1 <= d.0 <= 1 && -1 <= d.1 <= 1
                &&& final(self).position() == old(self).position() + 1
            }),
            old(self).position() >= old(self).yield_bound() ==> r is None && *final(self)
                == *old(self),
            final(self).yield_bound() == old(self).yield_bound(),
            forall|i: int| #[trigger] final(self).dir_at(i) == old(self).dir_at(i),
    {
        let n: usize = match self.dirs {
            DirSet::Rook => 4,
            DirSet::Bishop => 4,
            DirSet::All => 8,
        };
        if self.current < n {
            let d = match self.dirs {
                DirSet::Rook => rook_dir(self.current),
                DirSet::Bishop => bishop_dir(self.current),
                DirSet::All => all_dir(self.current),
            };
            self.current = self.current + 1;
            Some(d)
        } else {
            None
        }
    }
}

/// A cursor over the in-board knight hops from a square.
pub struct KnightHopIter {
    pub current: usize,
    pub origin: Square,
}

impl KnightHopIter {
    pub fn new(origin: Square) -> (r: KnightHopIter)
        ensures
            r.current == 0,
            r.origin == origin,
    {
        KnightHopIter { current: 0, origin }
    }

    /// The square reached by hop `i` from the origin, when it is on the board.
    pub open spec fn hop_target(self, i: int) -> Option<Square> {
        let d = spec_knight_hop(i);
        let f = self.origin.0.as_int() + d.0;
        let r = self.origin.1.as_int() + d.1;
        if on_board(f, r) {
            Some(sq_at(f, r))
        } else {
            None
        }
    }

    pub fn next(&mut self) -> (r: Option<Square>)
        requires
            old(self).current <= 8,
        ensures
            final(self).origin == old(self).origin,
            old(self).current <= final(self).current <= 8,
            r is Some ==> {
                &&& final(self).current > old(self).current
                &&& old(self).hop_target(final(self).current - 1) == r
                &&& forall|j: int| old(self).current <= j < final(self).current - 1
                    ==> old(self).hop_target(j) is None
            },
            r is None ==> final(self).current == 8 && forall|j: int|
                old(self).current <= j < 8 ==> old(self).hop_target(j) is None,
    {
        while self.current < 8
            invariant
                self.origin == old(self).origin,
                old(self).current <= self.current <= 8,
                forall|j: int| old(self).current <= j < self.current
                    ==> old(self).hop_target(j) is None,
            decreases 8 - self.current,
        {
            let hop = knight_hop(self.current);
            self.current = self.current + 1;
            if let Some(pos) = pos_plus(self.origin, hop) {
                return Some(pos);
            }
        }
        None
    }
}

/// A cursor along a ray: successive squares from a base in one direction,
/// until the edge of the board.
pub struct RayIter {
    pub dir: (i8, i8),
    pub current: Square,
}

impl RayIter {
    pub fn new(base: Square, dir: (i8, i8)) -> (r: RayIter)
        ensures
            r.current == base,
            r.dir == dir,
    {
        RayIter { dir, current: base }
    }

    pub fn next(&mut self) -> (r: Option<Square>)
        requires
            -8 <= old(self).dir.0 <= 8,
            -8 <= old(self).dir.1 <= 8,
        ensures
            final(self).dir == old(self).dir,
            ({
                let f = old(self).current.0.as_int() + old(self).dir.0;
                let k = old(self).current.1.as_int() + old(self).dir.1;
                if on_board(f, k) {
                    r == Some(sq_at(f, k)) && final(self).current == sq_at(f, k)
                } else {
                    r is None && *final(self) == *old(self)
                }
            }),
    {
        match pos_plus(self.current, self.dir) {
            Some(pos) => {
                self.current = pos;
                Some(pos)
            },
            None => None,
        }
    }
}

/// A cursor over the squares strictly between two aligned squares, in order
/// from `src` to `dest`.
pub struct SlideIter {
    current: Square,
    dest: Square,
    step: (i8, i8),
    src: Ghost<Square>,
    k: Ghost<int>,
}

impl SlideIter {
    /// Where this cursor stands on the segment: the next square it yields is
    /// the `position()`-th step from the source.
    pub closed spec fn position(self) -> int {
        self.k@
    }

    pub closed spec fn source(self) -> Square {
        self.src@
    }

    pub closed spec fn target(self) -> Square {
        self.dest
    }

    /// The cursor stands on the segment and its step follows it.
    pub closed spec fn wf(self) -> bool {
        &&& is_rook_pattern(self.src@, self.dest) || is_bishop_pattern(self.src@, self.dest)
        &&& self.src@ != self.dest
        &&& 1 <= self.k@ <= slide_dist(self.src@, self.dest)
        &&& self.current == between_sq(self.src@, self.dest, self.k@)
        &&& self.step.0 as int == sign_of(d_file(self.src@, self.dest))
        &&& self.step.1 as int == sign_of(d_rank(self.src@, self.dest))
    }

    /// Walks the straight segment from `src` to `dest`, both excluded.
    pub fn new(src: Square, dest: Square) -> (r: SlideIter)
        requires
            is_rook_pattern(src, dest) || is_bishop_pattern(src, dest),
            src != dest,
        ensures
            r.wf(),
            r.source() == src,
            r.target() == dest,
            r.position() == 1,
    {
        proof {
            lemma_segment_on_board(src, dest, 1);
        }
        let dx = dest.0.to_i8() - src.0.to_i8();
        let dy = dest.1.to_i8() - src.1.to_i8();
        let step: (i8, i8) = (sign_i8(dx), sign_i8(dy));
        let current = pos_plus(src, step).unwrap();
        SlideIter { current, dest, step, src: Ghost(src), k: Ghost(1) }
    }

    pub fn next(&mut self) -> (r: Option<Square>)
        requires
            old(self).wf(),
        ensures
            final(self).wf(),
            final(self).source() == old(self).source(),
            final(self).target() == old(self).target(),
            old(self).position() < slide_dist(old(self).source(), old(self).target()) ==> {
                &&& r == Some(between_sq(old(self).source(), old(self).target(), old(
                    self,
                ).position()))
                &&& final(self).position() == old(self).position() + 1
            },
            old(self).position() == slide_dist(old(self).source(), old(self).target()) ==> {
                r is None && *final(self) == *old(self)
            },
    {
        proof {
            lemma_segment_on_board(self.src@, self.dest, self.k@);
            if self.k@ < slide_dist(self.src@, self.dest) {
                lemma_segment_on_board(self.src@, self.dest, self.k@ + 1);
            } else {
                lemma_segment_end(self.src@, self.dest);
            }
        }
        if self.current != self.dest {
            let curr = self.current;
            self.current = pos_plus(self.current, self.step).unwrap();
            proof {
                self.k@ = self.k@ + 1;
            }
            Some(curr)
        } else {
            None
        }
    }
}

pub open spec fn sign_of(a: int) -> int {
    if a > 0 { 1 } else if a < 0 { -1 } else { 0 }
}

fn sign_i8(a: i8) -> (r: i8)
    requires
        -100 <= a <= 100,
    ensures
        r as int == sign_of(a as int),
{
    if a > 0 { 1 } else if a < 0 { -1 } else { 0 }
}

/// Interior points of an aligned segment lie on the board, and stepping from
/// one reaches the next.
pub proof fn lemma_segment_on_board(src: Square, dest: Square, k: int)
    requires
        is_rook_pattern(src, dest) || is_bishop_pattern(src, dest),
        0 <= k <= slide_dist(src, dest),
    ensures
        on_board(
            toward(src.0.as_int(), dest.0.as_int(), k),
            toward(src.1.as_int(), dest.1.as_int(), k),
        ),
        toward(src.0.as_int(), dest.0.as_int(), k) == src.0.as_int() + k * sign_of(
            d_file(src, dest),
        ),
        toward(src.1.as_int(), dest.1.as_int(), k) == src.1.as_int() + k * sign_of(
            d_rank(src, dest),
        ),
{
    let fx = src.0.as_int();
    let gx = dest.0.as_int();
    let fy = src.1.as_int();
    let gy = dest.1.as_int();
    assert(k * 1 == k) by (nonlinear_arith);
    assert(k * -1 == -k) by (nonlinear_arith);
    assert(k * 0 == 0) by (nonlinear_arith);
    assert(0 <= fx < 8 && 0 <= gx < 8 && 0 <= fy < 8 && 0 <= gy < 8);
}

/// At the last step the segment has arrived: the walked square is `dest`.
pub proof fn lemma_segment_end(src: Square, dest: Square)
    requires
        is_rook_pattern(src, dest) || is_bishop_pattern(src, dest),
    ensures
        between_sq(src, dest, slide_dist(src, dest)) == dest,
{
    let d = slide_dist(src, dest);
    assert(toward(src.0.as_int(), dest.0.as_int(), d) == dest.0.as_int());
    assert(toward(src.1.as_int(), dest.1.as_int(), d) == dest.1.as_int());
}


/// The squares the movement pattern of `piece` could reach from `origin`:
/// rays for the sliders, hops for the knight, neighbours for the king, and
/// the forward steps for a pawn. Every listed square fits the pattern, and
/// every square other than the origin that fits the pattern is listed.
pub fn get_pseudo_legal_moves(piece: PieceType, player: Color, origin: Square) -> (r: Vec<Square>)
    ensures
        forall|i: int| 0 <= i < r@.len() ==> is_pattern(origin, #[trigger] r@[i], piece, player),
        forall|dest: Square|
            dest != origin && is_pattern(origin, dest, piece, player) ==> r@.contains(dest),
{
    let mut out: Vec<Square> = Vec::new();
    match piece {
        PieceType::Queen => {
            let mut di: usize = 0;
            while di < 8
                invariant
                    di <= 8,
                    piece == PieceType::Queen,
                    forall|i: int| 0 <= i < out@.len() ==> is_pattern(
                        origin,
                        #[trigger] out@[i],
                        PieceType::Queen,
                        player,
                    ),
                    forall|s: Square, j: int|
                        0 <= j < di && #[trigger] crate::board_utils::in_dir(
                            origin,
                            s,
                            spec_all_dir(j).0,
                            spec_all_dir(j).1,
                        ) ==> out@.contains(s),
                decreases 8 - di,
            {
                push_ray_squares(origin, di, piece, player, &mut out);
                di = di + 1;
            }
            proof {
                assert forall|dest: Square|
                    dest != origin && is_pattern(origin, dest, PieceType::Queen, player)
                    implies out@.contains(dest) by {
                    crate::generation::lemma_aligned_to_dir(origin, dest);
                    if is_rook_pattern(origin, dest) {
                        let j = choose|j: int|
                            0 <= j < 4 && #[trigger] crate::board_utils::in_dir(
                                origin,
                                dest,
                                spec_all_dir(j).0,
                                spec_all_dir(j).1,
                            );
                        assert(out@.contains(dest));
                    } else {
                        let j = choose|j: int|
                            4 <= j < 8 && #[trigger] crate::board_utils::in_dir(
                                origin,
                                dest,
                                spec_all_dir(j).0,
                                spec_all_dir(j).1,
                            );
                        assert(out@.contains(dest));
                    }
                }
            }
        },
        PieceType::Rook => {
            let mut di: usize = 0;
            while di < 4
                invariant
                    di <= 4,
                    piece == PieceType::Rook,
                    forall|i: int| 0 <= i < out@.len() ==> is_pattern(
                        origin,
                        #[trigger] out@[i],
                        PieceType::Rook,
                        player,
                    ),
                    forall|s: Square, j: int|
                        0 <= j < di && #[trigger] crate::board_utils::in_dir(
                            origin,
                            s,
                            spec_all_dir(j).0,
                            spec_all_dir(j).1,
                        ) ==> out@.contains(s),
                decreases 4 - di,
            {
                push_ray_squares(origin, di, piece, player, &mut out);
                di = di + 1;
            }
            proof {
                assert forall|dest: Square|
                    dest != origin && is_pattern(origin, dest, PieceType::Rook, player)
                    implies out@.contains(dest) by {
                    crate::generation::lemma_aligned_to_dir(origin, dest);
                    let j = choose|j: int|
                        0 <= j < 4 && #[trigger] crate::board_utils::in_dir(
                            origin,
                            dest,
                            spec_all_dir(j).0,
                            spec_all_dir(j).1,
                        );
                    assert(out@.contains(dest));
                }
            }
        },
        PieceType::Bishop => {
            let mut di: usize = 4;
            while di < 8
                invariant
                    4 <= di <= 8,
                    piece == PieceType::Bishop,
                    forall|i: int| 0 <= i < out@.len() ==> is_pattern(
                        origin,
                        #[trigger] out@[i],
                        PieceType::Bishop,
                        player,
                    ),
                    forall|s: Square, j: int|
                        4 <= j < di && #[trigger] crate::board_utils::in_dir(
                            origin,
                            s,
                            spec_all_dir(j).0,
                            spec_all_dir(j).1,
                        ) ==> out@.contains(s),
                decreases 8 - di,
            {
                push_ray_squares(origin, di, piece, player, &mut out);
                di = di + 1;
            }
            proof {
                assert forall|dest: Square|
                    dest != origin && is_pattern(origin, dest, PieceType::Bishop, player)
                    implies out@.contains(dest) by {
                    if is_rook_pattern(origin, dest) {
                        assert(d_file(origin, dest) == 0 && d_rank(origin, dest) == 0);
                        assert(dest == sq_at(dest.0.as_int(), dest.1.as_int()));
                        assert(origin == sq_at(origin.0.as_int(), origin.1.as_int()));
                        assert(false);
                    }
                    crate::generation::lemma_aligned_to_dir(origin, dest);
                    let j = choose|j: int|
                        4 <= j < 8 && #[trigger] crate::board_utils::in_dir(
                            origin,
                            dest,
                            spec_all_dir(j).0,
                            spec_all_dir(j).1,
                        );
                    assert(out@.contains(dest));
                }
            }
        },
        PieceType::Knight => {
            let mut hi: usize = 0;
            while hi < 8
                invariant
                    hi <= 8,
                    forall|i: int| 0 <= i < out@.len() ==> is_pattern(
                        origin,
                        #[trigger] out@[i],
                        PieceType::Knight,
                        player,
                    ),
                    forall|j: int|
                        0 <= j < hi && on_board(
                            origin.0.as_int() + #[trigger] spec_knight_hop(j).0,
                            origin.1.as_int() + spec_knight_hop(j).1,
                        ) ==> out@.contains(
                            sq_at(
                                origin.0.as_int() + spec_knight_hop(j).0,
                                origin.1.as_int() + spec_knight_hop(j).1,
                            ),
                        ),
                decreases 8 - hi,
            {
                if let Some(dest) = pos_plus(origin, knight_hop(hi)) {
                    out.push(dest);
                }
                hi = hi + 1;
            }
            proof {
                assert forall|dest: Square|
                    dest != origin && is_pattern(origin, dest, PieceType::Knight, player)
                    implies out@.contains(dest) by {
                    assert(is_knight_pattern(dest, origin));
                    crate::board_utils::lemma_knight_coverage(origin, dest);
                    let j = choose|j: int|
                        0 <= j < 8 && on_board(
                            origin.0.as_int() + spec_knight_hop(j).0,
                            origin.1.as_int() + spec_knight_hop(j).1,
                        ) && dest == sq_at(
                            #[trigger] origin.0.as_int() + spec_knight_hop(j).0,
                            origin.1.as_int() + spec_knight_hop(j).1,
                        );
                    assert(out@.contains(dest));
                }
            }
        },
        PieceType::King => {
            let mut di: usize = 0;
            while di < 8
                invariant
                    di <= 8,
                    forall|i: int| 0 <= i < out@.len() ==> is_pattern(
                        origin,
                        #[trigger] out@[i],
                        PieceType::King,
                        player,
                    ),
                    forall|j: int|
                        0 <= j < di && on_board(
                            origin.0.as_int() + #[trigger] spec_all_dir(j).0,
                            origin.1.as_int() + spec_all_dir(j).1,
                        ) ==> out@.contains(
                            sq_at(
                                origin.0.as_int() + spec_all_dir(j).0,
                                origin.1.as_int() + spec_all_dir(j).1,
                            ),
                        ),
                decreases 8 - di,
            {
                if let Some(dest) = pos_plus(origin, all_dir(di)) {
                    out.push(dest);
                }
                di = di + 1;
            }
            proof {
                assert forall|dest: Square|
                    dest != origin && is_pattern(origin, dest, PieceType::King, player)
                    implies out@.contains(dest) by {
                    crate::generation::lemma_king_to_dir(origin, dest);
                    let j = choose|j: int|
                        0 <= j < 8 && on_board(
                            origin.0.as_int() + spec_all_dir(j).0,
                            origin.1.as_int() + spec_all_dir(j).1,
                        ) && dest == sq_at(
                            #[trigger] origin.0.as_int() + spec_all_dir(j).0,
                            origin.1.as_int() + spec_all_dir(j).1,
                        );
                    assert(out@.contains(dest));
                }
            }
        },
        PieceType::Pawn => {
            let forward: i8 = match player {
                Color::White => 1,
                Color::Black => -1,
            };
            let at_start = origin.1 == (match player {
                Color::White => Rank::_2,
                Color::Black => Rank::_7,
            });
            let step_count: usize = if at_start {
                4
            } else {
                3
            };
            let mut si: usize = 0;
            while si < step_count
                invariant
                    si <= step_count <= 4,
                    step_count == 4 ==> origin.1 == (match player {
                        Color::White => Rank::_2,
                        Color::Black => Rank::_7,
                    }),
                    forward as int == (match player {
                        Color::White => 1int,
                        Color::Black => -1int,
                    }),
                    forall|i: int| 0 <= i < out@.len() ==> is_pattern(
                        origin,
                        #[trigger] out@[i],
                        PieceType::Pawn,
                        player,
                    ),
                    forall|j: int|
                        0 <= j < si && on_board(
                            origin.0.as_int() + #[trigger] spec_pawn_step(player, j).0,
                            origin.1.as_int() + spec_pawn_step(player, j).1,
                        ) ==> out@.contains(
                            sq_at(
                                origin.0.as_int() + spec_pawn_step(player, j).0,
                                origin.1.as_int() + spec_pawn_step(player, j).1,
                            ),
                        ),
                decreases step_count - si,
            {
                let step: (i8, i8) = match si {
                    0 => (0, forward),
                    1 => (-1, forward),
                    2 => (1, forward),
                    _ => (0, 2 * forward),
                };
                proof {
                    assert((step.0 as int, step.1 as int) == spec_pawn_step(player, si as int));
                }
                if let Some(dest) = pos_plus(origin, step) {
                    out.push(dest);
                }
                si = si + 1;
            }
            proof {
                assert forall|dest: Square|
                    dest != origin && is_pattern(origin, dest, PieceType::Pawn, player)
                    implies out@.contains(dest) by {
                    let x = d_file(origin, dest);
                    let y = d_rank(origin, dest);
                    let j: int = if x == -1 {
                        1
                    } else if x == 1 {
                        2
                    } else if y == 1 || y == -1 {
                        0
                    } else {
                        3
                    };
                    assert(j == 3 ==> si == 4);
                    assert((x, y) == spec_pawn_step(player, j));
                    assert(dest.0.as_int() == origin.0.as_int() + spec_pawn_step(player, j).0);
                    assert(dest.1.as_int() == origin.1.as_int() + spec_pawn_step(player, j).1);
                    assert(on_board(
                        origin.0.as_int() + spec_pawn_step(player, j).0,
                        origin.1.as_int() + spec_pawn_step(player, j).1,
                    ));
                    assert(dest == sq_at(dest.0.as_int(), dest.1.as_int()));
                    assert(out@.contains(dest));
                }
            }
        },
    }
    out
}

/// A square in the direction at distance at most `k + 1` either lies within
/// `k` steps or is the ray square at `k + 1` itself.
proof fn lemma_ray_step_cover(origin: Square, dx: int, dy: int, k: int, dest: Square)
    requires
        -1 <= dx <= 1,
        -1 <= dy <= 1,
        !(dx == 0 && dy == 0),
        0 <= k,
        on_board(
            crate::board_utils::ray_f(origin, dx, k + 1),
            crate::board_utils::ray_r(origin, dy, k + 1),
        ),
        dest == sq_at(
            crate::board_utils::ray_f(origin, dx, k + 1),
            crate::board_utils::ray_r(origin, dy, k + 1),
        ),
    ensures
        forall|s: Square|
            crate::board_utils::in_dir(origin, s, dx, dy) && slide_dist(origin, s) <= k + 1
                ==> slide_dist(origin, s) <= k || s == dest,
{
    assert forall|s: Square|
        crate::board_utils::in_dir(origin, s, dx, dy) && slide_dist(origin, s) <= k + 1
        implies slide_dist(origin, s) <= k || s == dest by {
        crate::board_utils::lemma_in_dir_to_ray(origin, s, dx, dy);
    }
}

/// When the ray leaves the board at step `k + 1`, every square in the
/// direction lies within `k` steps.
proof fn lemma_ray_cut(origin: Square, dx: int, dy: int, k: int)
    requires
        -1 <= dx <= 1,
        -1 <= dy <= 1,
        !(dx == 0 && dy == 0),
        0 <= k,
        !on_board(
            crate::board_utils::ray_f(origin, dx, k + 1),
            crate::board_utils::ray_r(origin, dy, k + 1),
        ),
    ensures
        forall|s: Square|
            crate::board_utils::in_dir(origin, s, dx, dy) ==> slide_dist(origin, s) <= k,
{
    assert forall|s: Square| crate::board_utils::in_dir(origin, s, dx, dy)
        implies slide_dist(origin, s) <= k by {
        crate::board_utils::lemma_in_dir_to_ray(origin, s, dx, dy);
        let ks = slide_dist(origin, s);
        if ks > k {
            assert(on_board(
                crate::board_utils::ray_f(origin, dx, ks),
                crate::board_utils::ray_r(origin, dy, ks),
            ));
            assert(on_board(
                crate::board_utils::ray_f(origin, dx, k + 1),
                crate::board_utils::ray_r(origin, dy, k + 1),
            ));
            assert(false);
        }
    }
}

/// Walks one of the eight directions from `origin` and pushes every square
/// on the ray; they all fit the sliding pattern of the direction's kind.
#[verifier::rlimit(100)]
fn push_ray_squares(origin: Square, di: usize, piece: PieceType, player: Color, out: &mut Vec<
    Square,
>)
    requires
        di < 8,
        piece == PieceType::Queen || (piece == PieceType::Rook && di < 4) || (piece
            == PieceType::Bishop && di >= 4),
        forall|i: int| 0 <= i < old(out)@.len() ==> is_pattern(
            origin,
            #[trigger] old(out)@[i],
            piece,
            player,
        ),
    ensures
        forall|i: int| 0 <= i < final(out)@.len() ==> is_pattern(
            origin,
            #[trigger] final(out)@[i],
            piece,
            player,
        ),
        forall|s: Square| old(out)@.contains(s) ==> final(out)@.contains(s),
        forall|s: Square|
            crate::board_utils::in_dir(
                origin,
                s,
                spec_all_dir(di as int).0,
                spec_all_dir(di as int).1,
            ) ==> final(out)@.contains(s),
{
    let (dx, dy) = all_dir(di);
    let ghost dxi = dx as int;
    let ghost dyi = dy as int;
    let mut ray = RayIter::new(origin, (dx, dy));
    let ghost k: int = 0;
    loop
        invariant
            di < 8,
            piece == PieceType::Queen || (piece == PieceType::Rook && di < 4) || (piece
                == PieceType::Bishop && di >= 4),
            (dx as int, dy as int) == spec_all_dir(di as int),
            dxi == dx as int,
            dyi == dy as int,
            ray.dir == (dx, dy),
            0 <= k <= 7,
            k == 0 ==> ray.current == origin,
            k > 0 ==> ray.current == sq_at(
                crate::board_utils::ray_f(origin, dxi, k),
                crate::board_utils::ray_r(origin, dyi, k),
            ) && on_board(
                crate::board_utils::ray_f(origin, dxi, k),
                crate::board_utils::ray_r(origin, dyi, k),
            ),
            forall|i: int| 0 <= i < out@.len() ==> is_pattern(
                origin,
                #[trigger] out@[i],
                piece,
                player,
            ),
            forall|s: Square| old(out)@.contains(s) ==> out@.contains(s),
            forall|s: Square|
                crate::board_utils::in_dir(origin, s, dxi, dyi) && slide_dist(origin, s) <= k
                    ==> out@.contains(s),
        decreases 8 - k,
    {
        let dest = match ray.next() {
            Some(p) => p,
            None => {
                proof {
                    assert(ray.current.0.as_int() + dxi == crate::board_utils::ray_f(
                        origin,
                        dxi,
                        k + 1,
                    ));
                    assert(ray.current.1.as_int() + dyi == crate::board_utils::ray_r(
                        origin,
                        dyi,
                        k + 1,
                    ));
                    lemma_ray_cut(origin, dxi, dyi, k);
                }
                return ;
            },
        };
        proof {
            crate::board_utils::lemma_ray_props(origin, dxi, dyi, k + 1);
            assert(crate::board_utils::in_dir(origin, dest, dxi, dyi));
            assert(k + 1 <= 7) by {
                assert(on_board(
                    crate::board_utils::ray_f(origin, dxi, k + 1),
                    crate::board_utils::ray_r(origin, dyi, k + 1),
                ));
            }
        }
        out.push(dest);
        proof {
            lemma_ray_step_cover(origin, dxi, dyi, k, dest);
            k = k + 1;
        }
    }
}

} // verus!

