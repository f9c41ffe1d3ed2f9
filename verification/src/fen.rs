//! Reading and writing positions in Forsyth–Edwards notation.
//!
//! The grammar is stated as recursive spec functions over character
//! sequences; the executable parser and printer are proved to match them.

use vstd::prelude::*;

use crate::board::{Board, BoardView};
use crate::models::{
    spec_file_of_char, spec_rank_of_char, Color, File, Piece, PieceType, Rank, Square,
};

verus! {

/// The piece a FEN placement letter stands for.
pub open spec fn piece_of_char(c: char) -> Option<Piece> {
    if c == 'p' { Some(Piece(PieceType::Pawn, Color::Black)) }
    else if c == 'n' { Some(Piece(PieceType::Knight, Color::Black)) }
    else if c == 'b' { Some(Piece(PieceType::Bishop, Color::Black)) }
    else if c == 'r' { Some(Piece(PieceType::Rook, Color::Black)) }
    else if c == 'q' { Some(Piece(PieceType::Queen, Color::Black)) }
    else if c == 'k' { Some(Piece(PieceType::King, Color::Black)) }
    else if c == 'P' { Some(Piece(PieceType::Pawn, Color::White)) }
    else if c == 'N' { Some(Piece(PieceType::Knight, Color::White)) }
    else if c == 'B' { Some(Piece(PieceType::Bishop, Color::White)) }
    else if c == 'R' { Some(Piece(PieceType::Rook, Color::White)) }
    else if c == 'Q' { Some(Piece(PieceType::Queen, Color::White)) }
    else if c == 'K' { Some(Piece(PieceType::King, Color::White)) }
    else { None }
}

/// The FEN placement letter for a piece; inverse of `piece_of_char`.
pub open spec fn char_of_piece(p: Piece) -> char {
    match p {
        Piece(PieceType::Pawn, Color::White) => 'P',
        Piece(PieceType::Knight, Color::White) => 'N',
        Piece(PieceType::Bishop, Color::White) => 'B',
        Piece(PieceType::Rook, Color::White) => 'R',
        Piece(PieceType::Queen, Color::White) => 'Q',
        Piece(PieceType::King, Color::White) => 'K',
        Piece(PieceType::Pawn, Color::Black) => 'p',
        Piece(PieceType::Knight, Color::Black) => 'n',
        Piece(PieceType::Bishop, Color::Black) => 'b',
        Piece(PieceType::Rook, Color::Black) => 'r',
        Piece(PieceType::Queen, Color::Black) => 'q',
        Piece(PieceType::King, Color::Black) => 'k',
    }
}

/// The value of a FEN empty-square digit, `'1'` through `'8'`.
pub open spec fn digit_val(c: char) -> Option<int> {
    if c == '1' { Some(1int) }
    else if c == '2' { Some(2int) }
    else if c == '3' { Some(3int) }
    else if c == '4' { Some(4int) }
    else if c == '5' { Some(5int) }
    else if c == '6' { Some(6int) }
    else if c == '7' { Some(7int) }
    else if c == '8' { Some(8int) }
    else { None }
}

/// The digit character for a count of empty squares, `1` through `8`.
pub open spec fn digit_char(n: int) -> char {
    if n == 1 { '1' }
    else if n == 2 { '2' }
    else if n == 3 { '3' }
    else if n == 4 { '4' }
    else if n == 5 { '5' }
    else if n == 6 { '6' }
    else if n == 7 { '7' }
    else { '8' }
}

pub open spec fn is_fen_space(c: char) -> bool {
    c == ' ' || c == '\t' || c == '\n' || c == '\r'
}

/// First index at or after `i` holding a non-space character, or the end.
pub open spec fn skip_spaces(s: Seq<char>, i: int) -> int
    decreases s.len() - i,
{
    if i < 0 || i >= s.len() {
        s.len() as int
    } else if is_fen_space(s[i]) {
        skip_spaces(s, i + 1)
    } else {
        i
    }
}

/// First index at or after `i` holding a space, or the end: the end of the
/// token starting at `i`.
pub open spec fn token_end(s: Seq<char>, i: int) -> int
    decreases s.len() - i,
{
    if i < 0 || i >= s.len() {
        s.len() as int
    } else if is_fen_space(s[i]) {
        i
    } else {
        token_end(s, i + 1)
    }
}

pub proof fn lemma_skip_spaces_bounds(s: Seq<char>, i: int)
    requires
        0 <= i <= s.len(),
    ensures
        i <= skip_spaces(s, i) <= s.len(),
        i <= token_end(s, i) <= s.len(),
    decreases s.len() - i,
{
    if i < s.len() {
        lemma_skip_spaces_bounds(s, i + 1);
    }
}

/// Reads a FEN placement field, from character `i` on, into `sq`, standing at
/// the given rank and file. `None` on a malformed field.
pub open spec fn place_rec(
    s: Seq<char>,
    i: int,
    rank: int,
    file: int,
    sq: Seq<Option<Piece>>,
) -> Option<Seq<Option<Piece>>>
    decreases s.len() - i,
{
    if i < 0 || i >= s.len() {
        if rank == 0 {
            Some(sq)
        } else {
            None
        }
    } else {
        let c = s[i];
        if c == '/' {
            if file != 8 || rank == 0 {
                None
            } else {
                place_rec(s, i + 1, rank - 1, 0, sq)
            }
        } else if digit_val(c) is Some {
            let e = digit_val(c)->0;
            if file + e > 8 {
                None
            } else {
                place_rec(s, i + 1, rank, file + e, sq)
            }
        } else if piece_of_char(c) is Some {
            if file >= 8 {
                None
            } else {
                place_rec(s, i + 1, rank, file + 1, sq.update(rank * 8 + file, piece_of_char(c)))
            }
        } else {
            None
        }
    }
}

/// Reads a FEN castling field from `i` on, OR-ing bits into `acc`.
pub open spec fn castling_rec(s: Seq<char>, i: int, acc: u8) -> Option<u8>
    decreases s.len() - i,
{
    if i < 0 || i >= s.len() {
        Some(acc)
    } else {
        let c = s[i];
        if c == 'K' { castling_rec(s, i + 1, acc | 0b1000) }
        else if c == 'Q' { castling_rec(s, i + 1, acc | 0b0100) }
        else if c == 'k' { castling_rec(s, i + 1, acc | 0b0010) }
        else if c == 'q' { castling_rec(s, i + 1, acc | 0b0001) }
        else if c == '-' { castling_rec(s, i + 1, acc) }
        else { None }
    }
}

/// The side named by a FEN side-to-move field.
pub open spec fn parse_side(s: Seq<char>) -> Option<Color> {
    if s =~= seq!['w'] {
        Some(Color::White)
    } else if s =~= seq!['b'] {
        Some(Color::Black)
    } else {
        None
    }
}

/// The en-passant field: a dash or a square name.
pub open spec fn parse_ep(s: Seq<char>) -> Option<Option<Square>> {
    if s =~= seq!['-'] {
        Some(None)
    } else if s.len() == 2 {
        let f = spec_file_of_char(s[0]);
        let k = spec_rank_of_char(s[1]);
        if f is Some && k is Some {
            Some(Some(Square(f->0, k->0)))
        } else {
            None
        }
    } else {
        None
    }
}

/// An all-empty board.
pub open spec fn empty_squares() -> Seq<Option<Piece>> {
    Seq::new(64, |i: int| None::<Piece>)
}

/// The position a FEN record describes: six space-separated fields, of which
/// the half-move and full-move counters are read but ignored.
pub open spec fn parse_fen(s: Seq<char>) -> Option<BoardView> {
    let i0 = skip_spaces(s, 0);
    let e0 = token_end(s, i0);
    let i1 = skip_spaces(s, e0);
    let e1 = token_end(s, i1);
    let i2 = skip_spaces(s, e1);
    let e2 = token_end(s, i2);
    let i3 = skip_spaces(s, e2);
    let e3 = token_end(s, i3);
    let i4 = skip_spaces(s, e3);
    let e4 = token_end(s, i4);
    let i5 = skip_spaces(s, e4);
    let e5 = token_end(s, i5);
    if i0 == s.len() || i1 == s.len() || i2 == s.len() || i3 == s.len() || i4 == s.len() || i5
        == s.len() || skip_spaces(s, e5) != s.len() {
        None
    } else {
        let sq = place_rec(s.subrange(i0, e0), 0, 7, 0, empty_squares());
        let side = parse_side(s.subrange(i1, e1));
        let castling = castling_rec(s.subrange(i2, e2), 0, 0);
        let ep = parse_ep(s.subrange(i3, e3));
        if sq is Some && side is Some && castling is Some && ep is Some {
            Some(
                BoardView {
                    squares: sq->0,
                    active_player: side->0,
                    castling_rights: castling->0,
                    en_passant_target: ep->0,
                },
            )
        } else {
            None
        }
    }
}

impl Board {
    /// Reads the placement field of a FEN record.
    pub fn squares_from_fen(fen_squares: &str) -> (r: Result<[Option<Piece>; 64], String>)
        ensures
            match r {
                Ok(sq) => place_rec(fen_squares@, 0, 7, 0, empty_squares()) == Some(sq@),
                Err(_) => place_rec(fen_squares@, 0, 7, 0, empty_squares()) is None,
            },
    {
        let n = fen_squares.unicode_len();
        let mut squares: [Option<Piece>; 64] = [None;64];
        let mut rank: usize = 7;
        let mut file: usize = 0;
        let mut i: usize = 0;
        proof {
            assert(squares@ =~= empty_squares());
        }
        while i < n
            invariant
                n == fen_squares@.len(),
                0 <= i <= n,
                rank <= 7,
                file <= 8,
                place_rec(fen_squares@, i as int, rank as int, file as int, squares@) == place_rec(
                    fen_squares@,
                    0,
                    7,
                    0,
                    empty_squares(),
                ),
            decreases n - i,
        {
            let c = fen_squares.get_char(i);
            match c {
                '/' => {
                    if file != 8 {
                        return Err("A rank holds too few squares".to_owned());
                    }
                    if rank == 0 {
                        return Err("Expected end of fen, but got more squares".to_owned());
                    }
                    rank = rank - 1;
                    file = 0;
                },
                '1' | '2' | '3' | '4' | '5' | '6' | '7' | '8' => {
                    let empty_squares_count: usize = match c {
                        '1' => 1,
                        '2' => 2,
                        '3' => 3,
                        '4' => 4,
                        '5' => 5,
                        '6' => 6,
                        '7' => 7,
                        _ => 8,
                    };
                    if file + empty_squares_count > 8 {
                        return Err("A rank holds too many empty squares".to_owned());
                    }
                    file = file + empty_squares_count;
                },
                _ => {
                    let piece = match c {
                        'p' => Piece(PieceType::Pawn, Color::Black),
                        'n' => Piece(PieceType::Knight, Color::Black),
                        'b' => Piece(PieceType::Bishop, Color::Black),
                        'r' => Piece(PieceType::Rook, Color::Black),
                        'q' => Piece(PieceType::Queen, Color::Black),
                        'k' => Piece(PieceType::King, Color::Black),
                        'P' => Piece(PieceType::Pawn, Color::White),
                        'N' => Piece(PieceType::Knight, Color::White),
                        'B' => Piece(PieceType::Bishop, Color::White),
                        'R' => Piece(PieceType::Rook, Color::White),
                        'Q' => Piece(PieceType::Queen, Color::White),
                        'K' => Piece(PieceType::King, Color::White),
                        _ => {
                            return Err("Invalid character in fen".to_owned());
                        },
                    };
                    if file >= 8 {
                        return Err("A rank holds too many pieces".to_owned());
                    }
                    squares[rank * 8 + file] = Some(piece);
                    file = file + 1;
                },
            }
            i = i + 1;
        }
        if rank > 0 {
            return Err("Fewer ranks than expected".to_owned());
        }
        Ok(squares)
    }

    /// Reads the castling field of a FEN record.
    pub fn decode_fen_castling_rights(castling_rights: &str) -> (r: Result<u8, String>)
        ensures
            match r {
                Ok(bits) => castling_rec(castling_rights@, 0, 0) == Some(bits),
                Err(_) => castling_rec(castling_rights@, 0, 0) is None,
            },
    {
        let n = castling_rights.unicode_len();
        let mut result: u8 = 0;
        let mut i: usize = 0;
        while i < n
            invariant
                n == castling_rights@.len(),
                0 <= i <= n,
                castling_rec(castling_rights@, i as int, result) == castling_rec(castling_rights@, 0, 0),
            decreases n - i,
        {
            let c = castling_rights.get_char(i);
            match c {
                'K' => {
                    result = result | 0b1000;
                },
                'Q' => {
                    result = result | 0b0100;
                },
                'k' => {
                    result = result | 0b0010;
                },
                'q' => {
                    result = result | 0b0001;
                },
                '-' => {},
                _ => {
                    return Err("Invalid character in castling rights".to_owned());
                },
            }
            i = i + 1;
        }
        Ok(result)
    }

    /// Reads a full six-field FEN record into a position.
    pub fn from_fen(fen: &str) -> (r: Result<Board, String>)
        ensures
            match r {
                Ok(b) => parse_fen(fen@) == Some(b@),
                Err(_) => parse_fen(fen@) is None,
            },
    {
        let n = fen.unicode_len();
        let i0 = skip_spaces_exec(fen, 0);
        let e0 = token_end_exec(fen, i0);
        let i1 = skip_spaces_exec(fen, e0);
        let e1 = token_end_exec(fen, i1);
        let i2 = skip_spaces_exec(fen, e1);
        let e2 = token_end_exec(fen, i2);
        let i3 = skip_spaces_exec(fen, e2);
        let e3 = token_end_exec(fen, i3);
        let i4 = skip_spaces_exec(fen, e3);
        let e4 = token_end_exec(fen, i4);
        let i5 = skip_spaces_exec(fen, e4);
        let e5 = token_end_exec(fen, i5);
        if i0 == n || i1 == n || i2 == n || i3 == n || i4 == n || i5 == n {
            return Err("Expected 6 parts in fen".to_owned());
        }
        if skip_spaces_exec(fen, e5) != n {
            return Err("Expected 6 parts in fen".to_owned());
        }
        let squares = match Self::squares_from_fen(fen.substring_char(i0, e0)) {
            Ok(sq) => sq,
            Err(e) => {
                return Err(e);
            },
        };
        let side_str = fen.substring_char(i1, e1);
        let active_player = if side_str.unicode_len() == 1 {
            match side_str.get_char(0) {
                'w' => Color::White,
                'b' => Color::Black,
                _ => {
                    return Err("Invalid active player".to_owned());
                },
            }
        } else {
            return Err("Invalid active player".to_owned());
        };
        proof {
            let sub = fen@.subrange(i1 as int, e1 as int);
            if side_str@[0] == 'w' {
                assert(sub =~= seq!['w']);
            } else {
                assert(sub =~= seq!['b']);
            }
        }
        let castling_rights = match Self::decode_fen_castling_rights(
            fen.substring_char(i2, e2),
        ) {
            Ok(bits) => bits,
            Err(e) => {
                return Err(e);
            },
        };
        let ep_str = fen.substring_char(i3, e3);
        let en_passant_target = if ep_str.unicode_len() == 1 {
            if ep_str.get_char(0) == '-' {
                proof {
                    assert(fen@.subrange(i3 as int, e3 as int) =~= seq!['-']);
                }
                None
            } else {
                return Err("Invalid en passant target".to_owned());
            }
        } else {
            match Square::from_string(ep_str) {
                Ok(sq) => Some(sq),
                Err(e) => {
                    return Err(e);
                },
            }
        };
        Ok(Board { squares, active_player, castling_rights, en_passant_target })
    }
}

/// Walks past spaces; matches `skip_spaces`.
fn skip_spaces_exec(s: &str, i: usize) -> (r: usize)
    requires
        i <= s@.len(),
    ensures
        r == skip_spaces(s@, i as int),
        i <= r <= s@.len(),
{
    let n = s.unicode_len();
    let mut j = i;
    while j < n
        invariant
            i <= j <= n,
            n == s@.len(),
            skip_spaces(s@, j as int) == skip_spaces(s@, i as int),
        decreases n - j,
    {
        let c = s.get_char(j);
        if c == ' ' || c == '\t' || c == '\n' || c == '\r' {
            j = j + 1;
        } else {
            return j;
        }
    }
    proof {
        lemma_skip_spaces_bounds(s@, j as int);
    }
    j
}

/// Walks to the end of a token; matches `token_end`.
fn token_end_exec(s: &str, i: usize) -> (r: usize)
    requires
        i <= s@.len(),
    ensures
        r == token_end(s@, i as int),
        i <= r <= s@.len(),
{
    let n = s.unicode_len();
    let mut j = i;
    while j < n
        invariant
            i <= j <= n,
            n == s@.len(),
            token_end(s@, j as int) == token_end(s@, i as int),
        decreases n - j,
    {
        let c = s.get_char(j);
        if c == ' ' || c == '\t' || c == '\n' || c == '\r' {
            return j;
        } else {
            j = j + 1;
        }
    }
    j
}


/// The lower-case algebraic letter of a file.
pub open spec fn char_of_file(f: File) -> char {
    match f {
        File::A => 'a',
        File::B => 'b',
        File::C => 'c',
        File::D => 'd',
        File::E => 'e',
        File::F => 'f',
        File::G => 'g',
        File::H => 'h',
    }
}

/// The digit of a rank.
pub open spec fn char_of_rank(r: Rank) -> char {
    match r {
        Rank::_1 => '1',
        Rank::_2 => '2',
        Rank::_3 => '3',
        Rank::_4 => '4',
        Rank::_5 => '5',
        Rank::_6 => '6',
        Rank::_7 => '7',
        Rank::_8 => '8',
    }
}

/// One rank of the placement field, written from `file` on with `empties`
/// empty squares pending.
pub open spec fn render_rank(sq: Seq<Option<Piece>>, rank: int, file: int, empties: int) -> Seq<
    char,
>
    decreases 8 - file,
{
    if file >= 8 {
        if empties > 0 {
            seq![digit_char(empties)]
        } else {
            Seq::empty()
        }
    } else {
        match sq[rank * 8 + file] {
            Some(p) => {
                (if empties > 0 {
                    seq![digit_char(empties)]
                } else {
                    Seq::empty()
                }) + seq![char_of_piece(p)] + render_rank(sq, rank, file + 1, 0)
            },
            None => render_rank(sq, rank, file + 1, empties + 1),
        }
    }
}

/// The placement field from `rank` down to rank one, slash-separated.
pub open spec fn render_ranks_down(sq: Seq<Option<Piece>>, rank: int) -> Seq<char>
    decreases rank,
{
    if rank <= 0 {
        render_rank(sq, 0, 0, 0)
    } else {
        render_rank(sq, rank, 0, 0) + seq!['/'] + render_ranks_down(sq, rank - 1)
    }
}

pub open spec fn side_chars(c: Color) -> Seq<char> {
    match c {
        Color::White => seq!['w'],
        Color::Black => seq!['b'],
    }
}

pub open spec fn castling_chars(c: u8) -> Seq<char> {
    if c == 0 {
        seq!['-']
    } else {
        (if c & 0b1000 != 0 { seq!['K'] } else { Seq::empty() })
        + (if c & 0b0100 != 0 { seq!['Q'] } else { Seq::empty() })
        + (if c & 0b0010 != 0 { seq!['k'] } else { Seq::empty() })
        + (if c & 0b0001 != 0 { seq!['q'] } else { Seq::empty() })
    }
}

pub open spec fn ep_chars(t: Option<Square>) -> Seq<char> {
    match t {
        Some(sq) => seq![char_of_file(sq.0), char_of_rank(sq.1)],
        None => seq!['-'],
    }
}

/// The written-out fields after the placement.
pub open spec fn render_tail(v: BoardView) -> Seq<char> {
    seq![' '] + side_chars(v.active_player) + seq![' '] + castling_chars(v.castling_rights)
        + seq![' '] + ep_chars(v.en_passant_target) + seq![' ', '0', ' ', '1']
}

/// The FEN record of a position. The half-move and full-move counters are not
/// tracked and are written out as `0 1`.
pub open spec fn render_fen(v: BoardView) -> Seq<char> {
    render_ranks_down(v.squares, 7) + render_tail(v)
}

fn digit_char_exec(n: usize) -> (r: char)
    requires
        1 <= n <= 8,
    ensures
        r == digit_char(n as int),
{
    match n {
        1 => '1',
        2 => '2',
        3 => '3',
        4 => '4',
        5 => '5',
        6 => '6',
        7 => '7',
        _ => '8',
    }
}

fn char_of_piece_exec(p: Piece) -> (r: char)
    ensures
        r == char_of_piece(p),
{
    match p {
        Piece(PieceType::Pawn, Color::White) => 'P',
        Piece(PieceType::Knight, Color::White) => 'N',
        Piece(PieceType::Bishop, Color::White) => 'B',
        Piece(PieceType::Rook, Color::White) => 'R',
        Piece(PieceType::Queen, Color::White) => 'Q',
        Piece(PieceType::King, Color::White) => 'K',
        Piece(PieceType::Pawn, Color::Black) => 'p',
        Piece(PieceType::Knight, Color::Black) => 'n',
        Piece(PieceType::Bishop, Color::Black) => 'b',
        Piece(PieceType::Rook, Color::Black) => 'r',
        Piece(PieceType::Queen, Color::Black) => 'q',
        Piece(PieceType::King, Color::Black) => 'k',
    }
}

/// Relies on `String`'s `FromIterator` over `char`: collecting characters
/// yields the string holding exactly those characters in order.
#[verifier::external_body]
fn chars_to_string(v: &Vec<char>) -> (r: String)
    ensures
        r@ == v@,
{
    v.iter().collect()
}

impl Board {
    /// Appends one rank of the placement field.
    fn fen_rank(&self, rank: usize, out: &mut Vec<char>)
        requires
            rank <= 7,
        ensures
            final(out)@ == old(out)@ + render_rank(self@.squares, rank as int, 0, 0),
    {
        let ghost sqv = self@.squares;
        let ghost out0 = out@;
        let mut empties: usize = 0;
        let mut file: usize = 0;
        while file < 8
            invariant
                rank <= 7,
                file <= 8,
                empties <= file,
                sqv == self@.squares,
                out0 + render_rank(sqv, rank as int, 0, 0) == out@ + render_rank(
                    sqv,
                    rank as int,
                    file as int,
                    empties as int,
                ),
            decreases 8 - file,
        {
            let sq = Square(
                File::from_i8(file as i8).unwrap(),
                Rank::from_i8(rank as i8).unwrap(),
            );
            match self.get_piece_at(sq) {
                Some(piece) => {
                    proof {
                        assert(sqv[rank as int * 8 + file as int] == Some(piece));
                    }
                    let ghost before = out@;
                    if empties > 0 {
                        out.push(digit_char_exec(empties));
                    }
                    out.push(char_of_piece_exec(piece));
                    proof {
                        let pre = if empties as int > 0 {
                            seq![digit_char(empties as int)]
                        } else {
                            Seq::<char>::empty()
                        };
                        assert(out@ =~= before + pre + seq![char_of_piece(piece)]);
                        assert(before + render_rank(sqv, rank as int, file as int, empties as int)
                            =~= out@ + render_rank(sqv, rank as int, file as int + 1, 0));
                    }
                    empties = 0;
                },
                None => {
                    empties = empties + 1;
                },
            }
            file = file + 1;
        }
        let ghost before = out@;
        if empties > 0 {
            out.push(digit_char_exec(empties));
        }
        proof {
            assert(out@ =~= before + render_rank(sqv, rank as int, 8, empties as int));
            assert(out@ =~= out0 + render_rank(sqv, rank as int, 0, 0));
        }
    }

    /// Appends the whole placement field, ranks eight down to one.
    fn fen_placement(&self, out: &mut Vec<char>)
        ensures
            final(out)@ == old(out)@ + render_ranks_down(self@.squares, 7),
    {
        let ghost sqv = self@.squares;
        let ghost out0 = out@;
        let mut rank: usize = 7;
        loop
            invariant
                rank <= 7,
                sqv == self@.squares,
                out0 == old(out)@,
                out0 + render_ranks_down(sqv, 7) == out@ + render_ranks_down(sqv, rank as int),
            decreases rank,
        {
            let ghost before = out@;
            self.fen_rank(rank, out);
            if rank > 0 {
                out.push('/');
                proof {
                    assert(before + render_ranks_down(sqv, rank as int) =~= out@
                        + render_ranks_down(sqv, rank as int - 1));
                }
                rank = rank - 1;
            } else {
                proof {
                    assert(before + render_ranks_down(sqv, 0) =~= out@);
                }
                return ;
            }
        }
    }

    /// Appends the castling field.
    fn fen_castling(&self, out: &mut Vec<char>)
        ensures
            final(out)@ == old(out)@ + castling_chars(self@.castling_rights),
    {
        let ghost out0 = out@;
        if self.castling_rights == 0 {
            out.push('-');
            proof {
                assert(out@ =~= out0 + castling_chars(self@.castling_rights));
            }
        } else {
            if self.castling_rights & 0b1000 != 0 {
                out.push('K');
            }
            if self.castling_rights & 0b0100 != 0 {
                out.push('Q');
            }
            if self.castling_rights & 0b0010 != 0 {
                out.push('k');
            }
            if self.castling_rights & 0b0001 != 0 {
                out.push('q');
            }
            proof {
                assert(out@ =~= out0 + castling_chars(self@.castling_rights));
            }
        }
    }

    /// Appends the en-passant field.
    fn fen_ep(&self, out: &mut Vec<char>)
        ensures
            final(out)@ == old(out)@ + ep_chars(self@.en_passant_target),
    {
        let ghost out0 = out@;
        match self.en_passant_target {
            Some(p) => {
                let fc = match p.0 {
                    File::A => 'a',
                    File::B => 'b',
                    File::C => 'c',
                    File::D => 'd',
                    File::E => 'e',
                    File::F => 'f',
                    File::G => 'g',
                    File::H => 'h',
                };
                let rc = match p.1 {
                    Rank::_1 => '1',
                    Rank::_2 => '2',
                    Rank::_3 => '3',
                    Rank::_4 => '4',
                    Rank::_5 => '5',
                    Rank::_6 => '6',
                    Rank::_7 => '7',
                    Rank::_8 => '8',
                };
                out.push(fc);
                out.push(rc);
            },
            None => out.push('-'),
        }
        proof {
            assert(out@ =~= out0 + ep_chars(self@.en_passant_target));
        }
    }

    /// Writes this position as a FEN record, with `0 1` for the untracked
    /// half-move and full-move counters.
    pub fn to_fen(&self) -> (r: String)
        ensures
            r@ == render_fen(self@),
    {
        let mut out: Vec<char> = Vec::new();
        self.fen_placement(&mut out);
        let ghost placed = out@;
        out.push(' ');
        match self.active_player {
            Color::White => out.push('w'),
            Color::Black => out.push('b'),
        }
        out.push(' ');
        let ghost with_side = out@;
        proof {
            assert(with_side =~= placed + seq![' '] + side_chars(self@.active_player)
                + seq![' ']);
        }
        self.fen_castling(&mut out);
        out.push(' ');
        self.fen_ep(&mut out);
        out.push(' ');
        out.push('0');
        out.push(' ');
        out.push('1');
        proof {
            assert(out@ =~= placed + render_tail(self@));
            assert(out@ =~= render_fen(self@));
        }
        chars_to_string(&out)
    }

    /// The standard starting position: the record below, read back in. When
    /// the record parses — the runtime tests pin that it does — the result
    /// is that position; the fallback is the pinned empty board.
    pub fn default() -> (r: Board)
        ensures
            parse_fen("rnbqkbnr/pppppppp/8/8/8/8/PPPPPPPP/RNBQKBNR w KQkq - 0 1"@) matches Some(
                v,
            ) ==> r@ == v,
            parse_fen("rnbqkbnr/pppppppp/8/8/8/8/PPPPPPPP/RNBQKBNR w KQkq - 0 1"@) is None ==> ({
                &&& forall|s: Square| #[trigger] r@.at(s) is None
                &&& r@.active_player == Color::White
                &&& r@.castling_rights == 0
                &&& r@.en_passant_target is None
            }),
    {
        match Board::from_fen("rnbqkbnr/pppppppp/8/8/8/8/PPPPPPPP/RNBQKBNR w KQkq - 0 1") {
            Ok(b) => b,
            Err(_) => Board::empty(),
        }
    }
}


/// The side field reads back as the side it was written for.
pub proof fn lemma_side_round_trip(c: Color)
    ensures
        parse_side(side_chars(c)) == Some(c),
{
    match c {
        Color::White => {
            assert(side_chars(c) =~= seq!['w']);
        },
        Color::Black => {
            assert(side_chars(c) =~= seq!['b']);
            assert(side_chars(c)[0] != seq!['w'][0]);
            assert(!(side_chars(c) =~= seq!['w']));
        },
    }
}

/// The en-passant field reads back as the target it was written for.
pub proof fn lemma_ep_round_trip(t: Option<Square>)
    ensures
        parse_ep(ep_chars(t)) == Some(t),
{
    match t {
        None => {
            assert(ep_chars(t) =~= seq!['-']);
        },
        Some(sq) => {
            let s = ep_chars(t);
            assert(s.len() == 2);
            assert(!(s =~= seq!['-']));
            assert(spec_file_of_char(char_of_file(sq.0)) == Some(sq.0));
            assert(spec_rank_of_char(char_of_rank(sq.1)) == Some(sq.1));
        },
    }
}

/// The castling field reads back as the rights it was written for, as long
/// as only the four rights bits are set.
#[verifier::rlimit(100)]
pub proof fn lemma_castling_round_trip(c: u8)
    requires
        c < 16,
    ensures
        castling_rec(castling_chars(c), 0, 0) == Some(c),
{
    if c == 0 {
        assert(castling_chars(c) =~= seq!['-']);
        assert(castling_rec(seq!['-'], 0, 0) == castling_rec(seq!['-'], 1, 0));
    } else {
        let wk = c & 0b1000 != 0;
        let wq = c & 0b0100 != 0;
        let bk = c & 0b0010 != 0;
        let bq = c & 0b0001 != 0;
        let s = castling_chars(c);
        reveal_with_fuel(castling_rec, 6);
        assert(wk || wq || bk || bq) by (bit_vector)
            requires
                c != 0,
                c < 16,
                wk == (c & 0b1000u8 != 0),
                wq == (c & 0b0100u8 != 0),
                bk == (c & 0b0010u8 != 0),
                bq == (c & 0b0001u8 != 0),
        ;
    if wk && wq && bk && bq {
        assert(s =~= seq!['K', 'Q', 'k', 'q']);
        assert(castling_rec(s, 0, 0) == Some(((((0u8 | 0b1000u8) | 0b0100u8) | 0b0010u8) | 0b0001u8)));
        assert(((((0u8 | 0b1000u8) | 0b0100u8) | 0b0010u8) | 0b0001u8) == c) by (bit_vector)
            requires
                c < 16,
                c & 0b1000u8 != 0,
                c & 0b0100u8 != 0,
                c & 0b0010u8 != 0,
                c & 0b0001u8 != 0,
        ;
    }
    if wk && wq && bk && !bq {
        assert(s =~= seq!['K', 'Q', 'k']);
        assert(castling_rec(s, 0, 0) == Some((((0u8 | 0b1000u8) | 0b0100u8) | 0b0010u8)));
        assert((((0u8 | 0b1000u8) | 0b0100u8) | 0b0010u8) == c) by (bit_vector)
            requires
                c < 16,
                c & 0b1000u8 != 0,
                c & 0b0100u8 != 0,
                c & 0b0010u8 != 0,
                c & 0b0001u8 == 0,
        ;
    }
    if wk && wq && !bk && bq {
        assert(s =~= seq!['K', 'Q', 'q']);
        assert(castling_rec(s, 0, 0) == Some((((0u8 | 0b1000u8) | 0b0100u8) | 0b0001u8)));
        assert((((0u8 | 0b1000u8) | 0b0100u8) | 0b0001u8) == c) by (bit_vector)
            requires
                c < 16,
                c & 0b1000u8 != 0,
                c & 0b0100u8 != 0,
                c & 0b0010u8 == 0,
                c & 0b0001u8 != 0,
        ;
    }
    if wk && wq && !bk && !bq {
        assert(s =~= seq!['K', 'Q']);
        assert(castling_rec(s, 0, 0) == Some(((0u8 | 0b1000u8) | 0b0100u8)));
        assert(((0u8 | 0b1000u8) | 0b0100u8) == c) by (bit_vector)
            requires
                c < 16,
                c & 0b1000u8 != 0,
                c & 0b0100u8 != 0,
                c & 0b0010u8 == 0,
                c & 0b0001u8 == 0,
        ;
    }
    if wk && !wq && bk && bq {
        assert(s =~= seq!['K', 'k', 'q']);
        assert(castling_rec(s, 0, 0) == Some((((0u8 | 0b1000u8) | 0b0010u8) | 0b0001u8)));
        assert((((0u8 | 0b1000u8) | 0b0010u8) | 0b0001u8) == c) by (bit_vector)
            requires
                c < 16,
                c & 0b1000u8 != 0,
                c & 0b0100u8 == 0,
                c & 0b0010u8 != 0,
                c & 0b0001u8 != 0,
        ;
    }
    if wk && !wq && bk && !bq {
        assert(s =~= seq!['K', 'k']);
        assert(castling_rec(s, 0, 0) == Some(((0u8 | 0b1000u8) | 0b0010u8)));
        assert(((0u8 | 0b1000u8) | 0b0010u8) == c) by (bit_vector)
            requires
                c < 16,
                c & 0b1000u8 != 0,
                c & 0b0100u8 == 0,
                c & 0b0010u8 != 0,
                c & 0b0001u8 == 0,
        ;
    }
    if wk && !wq && !bk && bq {
        assert(s =~= seq!['K', 'q']);
        assert(castling_rec(s, 0, 0) == Some(((0u8 | 0b1000u8) | 0b0001u8)));
        assert(((0u8 | 0b1000u8) | 0b0001u8) == c) by (bit_vector)
            requires
                c < 16,
                c & 0b1000u8 != 0,
                c & 0b0100u8 == 0,
                c & 0b0010u8 == 0,
                c & 0b0001u8 != 0,
        ;
    }
    if wk && !wq && !bk && !bq {
        assert(s =~= seq!['K']);
        assert(castling_rec(s, 0, 0) == Some((0u8 | 0b1000u8)));
        assert((0u8 | 0b1000u8) == c) by (bit_vector)
            requires
                c < 16,
                c & 0b1000u8 != 0,
                c & 0b0100u8 == 0,
                c & 0b0010u8 == 0,
                c & 0b0001u8 == 0,
        ;
    }
    if !wk && wq && bk && bq {
        assert(s =~= seq!['Q', 'k', 'q']);
        assert(castling_rec(s, 0, 0) == Some((((0u8 | 0b0100u8) | 0b0010u8) | 0b0001u8)));
        assert((((0u8 | 0b0100u8) | 0b0010u8) | 0b0001u8) == c) by (bit_vector)
            requires
                c < 16,
                c & 0b1000u8 == 0,
                c & 0b0100u8 != 0,
                c & 0b0010u8 != 0,
                c & 0b0001u8 != 0,
        ;
    }
    if !wk && wq && bk && !bq {
        assert(s =~= seq!['Q', 'k']);
        assert(castling_rec(s, 0, 0) == Some(((0u8 | 0b0100u8) | 0b0010u8)));
        assert(((0u8 | 0b0100u8) | 0b0010u8) == c) by (bit_vector)
            requires
                c < 16,
                c & 0b1000u8 == 0,
                c & 0b0100u8 != 0,
                c & 0b0010u8 != 0,
                c & 0b0001u8 == 0,
        ;
    }
    if !wk && wq && !bk && bq {
        assert(s =~= seq!['Q', 'q']);
        assert(castling_rec(s, 0, 0) == Some(((0u8 | 0b0100u8) | 0b0001u8)));
        assert(((0u8 | 0b0100u8) | 0b0001u8) == c) by (bit_vector)
            requires
                c < 16,
                c & 0b1000u8 == 0,
                c & 0b0100u8 != 0,
                c & 0b0010u8 == 0,
                c & 0b0001u8 != 0,
        ;
    }
    if !wk && wq && !bk && !bq {
        assert(s =~= seq!['Q']);
        assert(castling_rec(s, 0, 0) == Some((0u8 | 0b0100u8)));
        assert((0u8 | 0b0100u8) == c) by (bit_vector)
            requires
                c < 16,
                c & 0b1000u8 == 0,
                c & 0b0100u8 != 0,
                c & 0b0010u8 == 0,
                c & 0b0001u8 == 0,
        ;
    }
    if !wk && !wq && bk && bq {
        assert(s =~= seq!['k', 'q']);
        assert(castling_rec(s, 0, 0) == Some(((0u8 | 0b0010u8) | 0b0001u8)));
        assert(((0u8 | 0b0010u8) | 0b0001u8) == c) by (bit_vector)
            requires
                c < 16,
                c & 0b1000u8 == 0,
                c & 0b0100u8 == 0,
                c & 0b0010u8 != 0,
                c & 0b0001u8 != 0,
        ;
    }
    if !wk && !wq && bk && !bq {
        assert(s =~= seq!['k']);
        assert(castling_rec(s, 0, 0) == Some((0u8 | 0b0010u8)));
        assert((0u8 | 0b0010u8) == c) by (bit_vector)
            requires
                c < 16,
                c & 0b1000u8 == 0,
                c & 0b0100u8 == 0,
                c & 0b0010u8 != 0,
                c & 0b0001u8 == 0,
        ;
    }
    if !wk && !wq && !bk && bq {
        assert(s =~= seq!['q']);
        assert(castling_rec(s, 0, 0) == Some((0u8 | 0b0001u8)));
        assert((0u8 | 0b0001u8) == c) by (bit_vector)
            requires
                c < 16,
                c & 0b1000u8 == 0,
                c & 0b0100u8 == 0,
                c & 0b0010u8 == 0,
                c & 0b0001u8 != 0,
        ;
    }
    }
}


/// A character of a rendered rank is a digit, a piece letter or a slash:
/// never a space. And a rank with squares left to write is never empty.
proof fn lemma_render_rank_chars(sq: Seq<Option<Piece>>, rank: int, file: int, empties: int)
    requires
        0 <= empties,
    ensures
        forall|j: int| 0 <= j < render_rank(sq, rank, file, empties).len() ==> !is_fen_space(
            #[trigger] render_rank(sq, rank, file, empties)[j],
        ),
        file < 8 || empties > 0 ==> render_rank(sq, rank, file, empties).len() >= 1,
    decreases 8 - file,
{
    if file >= 8 {
        if empties > 0 {
            assert(render_rank(sq, rank, file, empties) =~= seq![digit_char(empties)]);
            assert(!is_fen_space(digit_char(empties)));
        }
    } else {
        match sq[rank * 8 + file] {
            Some(p) => {
                lemma_render_rank_chars(sq, rank, file + 1, 0);
                let r = render_rank(sq, rank, file, empties);
                let rest = render_rank(sq, rank, file + 1, 0);
                let pre: Seq<char> = if empties > 0 {
                    seq![digit_char(empties)]
                } else {
                    Seq::empty()
                };
                assert(r == pre + seq![char_of_piece(p)] + rest);
                assert forall|j: int| 0 <= j < r.len() implies !is_fen_space(#[trigger] r[j]) by {
                    if j < pre.len() {
                        assert(r[j] == digit_char(empties));
                        assert(!is_fen_space(digit_char(empties)));
                    } else if j == pre.len() {
                        assert(r[j] == char_of_piece(p));
                        assert(!is_fen_space(char_of_piece(p)));
                    } else {
                        assert(r[j] == rest[j - pre.len() - 1]);
                    }
                }
            },
            None => {
                lemma_render_rank_chars(sq, rank, file + 1, empties + 1);
            },
        }
    }
}

/// The whole placement field has no spaces and at least one character.
proof fn lemma_render_ranks_chars(sq: Seq<Option<Piece>>, rank: int)
    ensures
        forall|j: int| 0 <= j < render_ranks_down(sq, rank).len() ==> !is_fen_space(
            #[trigger] render_ranks_down(sq, rank)[j],
        ),
        render_ranks_down(sq, rank).len() >= 1,
    decreases rank,
{
    if rank <= 0 {
        lemma_render_rank_chars(sq, 0, 0, 0);
    } else {
        lemma_render_rank_chars(sq, rank, 0, 0);
        lemma_render_ranks_chars(sq, rank - 1);
    }
}

/// The castling field has no spaces and at least one character.
proof fn lemma_castling_chars_chars(c: u8)
    requires
        c < 16,
    ensures
        forall|j: int| 0 <= j < castling_chars(c).len() ==> !is_fen_space(
            #[trigger] castling_chars(c)[j],
        ),
        castling_chars(c).len() >= 1,
{
    if c != 0 {
        assert(c & 0b1000u8 != 0 || c & 0b0100u8 != 0 || c & 0b0010u8 != 0 || c & 0b0001u8
            != 0) by (bit_vector)
            requires
                c != 0,
                c < 16,
        ;
    }
}

/// The en-passant field has no spaces and one or two characters.
proof fn lemma_ep_chars_chars(t: Option<Square>)
    ensures
        forall|j: int| 0 <= j < ep_chars(t).len() ==> !is_fen_space(#[trigger] ep_chars(t)[j]),
        1 <= ep_chars(t).len() <= 2,
{
}

/// A token runs to the first space after it.
proof fn lemma_token_end_at(u: Seq<char>, i: int, n: int)
    requires
        0 <= i <= n <= u.len(),
        forall|j: int| i <= j < n ==> !is_fen_space(#[trigger] u[j]),
        n == u.len() || is_fen_space(u[n]),
    ensures
        token_end(u, i) == n,
    decreases n - i,
{
    if i < n {
        lemma_token_end_at(u, i + 1, n);
    }
}

/// Skipping spaces from a non-space character stays put.
proof fn lemma_skip_at(u: Seq<char>, i: int)
    requires
        0 <= i,
        i == u.len() || (i < u.len() && !is_fen_space(u[i])),
    ensures
        skip_spaces(u, i) == i,
{
}

/// Skipping spaces from a single separator lands just after it.
proof fn lemma_skip_one(u: Seq<char>, i: int)
    requires
        0 <= i < u.len(),
        is_fen_space(u[i]),
        i + 1 == u.len() || !is_fen_space(u[i + 1]),
    ensures
        skip_spaces(u, i) == i + 1,
{
    lemma_skip_at(u, i + 1);
}


/// The accumulator with one rank's tail copied in from the position.
pub open spec fn row_filled(
    acc: Seq<Option<Piece>>,
    sq: Seq<Option<Piece>>,
    rank: int,
    lo: int,
) -> Seq<Option<Piece>> {
    Seq::new(64, |n: int| if rank * 8 + lo <= n < rank * 8 + 8 { sq[n] } else { acc[n] })
}

proof fn lemma_digit_inverse(e: int)
    requires
        1 <= e <= 8,
    ensures
        digit_val(digit_char(e)) == Some(e),
        !is_fen_space(digit_char(e)),
        digit_char(e) != '/',
{
}

proof fn lemma_piece_char_inverse(p: Piece)
    ensures
        piece_of_char(char_of_piece(p)) == Some(p),
        digit_val(char_of_piece(p)) is None,
        char_of_piece(p) != '/',
{
}

/// Reading back one written rank walks the parser across exactly that rank,
/// filling its pieces into the accumulator.
proof fn lemma_rank_round_trip(
    u: Seq<char>,
    i: int,
    sq: Seq<Option<Piece>>,
    rank: int,
    file: int,
    empties: int,
    acc: Seq<Option<Piece>>,
)
    requires
        sq.len() == 64,
        acc.len() == 64,
        0 <= rank <= 7,
        0 <= file <= 8,
        0 <= empties <= file,
        0 <= i,
        i + render_rank(sq, rank, file, empties).len() <= u.len(),
        u.subrange(i, i + render_rank(sq, rank, file, empties).len()) == render_rank(
            sq,
            rank,
            file,
            empties,
        ),
        forall|j: int| file - empties <= j < file ==> #[trigger] sq[rank * 8 + j] is None,
        forall|j: int| file - empties <= j < 8 ==> #[trigger] acc[rank * 8 + j] is None,
    ensures
        place_rec(u, i, rank, file - empties, acc) == place_rec(
            u,
            i + render_rank(sq, rank, file, empties).len(),
            rank,
            8,
            row_filled(acc, sq, rank, file - empties),
        ),
    decreases 8 - file,
{
    let r = render_rank(sq, rank, file, empties);
    let goal_acc = row_filled(acc, sq, rank, file - empties);
    if file >= 8 {
        if empties > 0 {
            assert(u[i] == r[0]) by {
                assert(u.subrange(i, i + r.len())[0] == r[0]);
            }
            lemma_digit_inverse(empties);
            assert(place_rec(u, i, rank, file - empties, acc) == place_rec(
                u,
                i + 1,
                rank,
                8,
                acc,
            ));
            assert forall|n: int| 0 <= n < 64 implies goal_acc[n] == acc[n] by {
                if rank * 8 + (file - empties) <= n < rank * 8 + 8 {
                    let j = n - rank * 8;
                    assert(sq[rank * 8 + j] is None);
                    assert(acc[rank * 8 + j] is None);
                }
            }
            assert(goal_acc =~= acc);
        } else {
            assert(r.len() == 0);
            assert(goal_acc =~= acc);
        }
    } else {
        lemma_render_rank_chars(sq, rank, file + 1, 0);
        match sq[rank * 8 + file] {
            Some(p) => {
                let pre: Seq<char> = if empties > 0 {
                    seq![digit_char(empties)]
                } else {
                    Seq::empty()
                };
                let rest = render_rank(sq, rank, file + 1, 0);
                assert(r == pre + seq![char_of_piece(p)] + rest);
                let i1 = i + pre.len();
                if empties > 0 {
                    assert(u[i] == r[0]) by {
                        assert(u.subrange(i, i + r.len())[0] == r[0]);
                    }
                    assert(r[0] == digit_char(empties));
                    lemma_digit_inverse(empties);
                    assert(place_rec(u, i, rank, file - empties, acc) == place_rec(
                        u,
                        i1,
                        rank,
                        file,
                        acc,
                    ));
                }
                assert(u[i1] == char_of_piece(p)) by {
                    assert(u.subrange(i, i + r.len())[pre.len() as int] == r[pre.len() as int]);
                    assert(r[pre.len() as int] == char_of_piece(p));
                }
                lemma_piece_char_inverse(p);
                let acc1 = acc.update(rank * 8 + file, Some(p));
                assert(place_rec(u, i1, rank, file, acc) == place_rec(
                    u,
                    i1 + 1,
                    rank,
                    file + 1,
                    acc1,
                ));
                assert(u.subrange(i1 + 1, i1 + 1 + rest.len()) =~= rest) by {
                    assert forall|j: int| 0 <= j < rest.len() implies u.subrange(
                        i1 + 1,
                        i1 + 1 + rest.len(),
                    )[j] == rest[j] by {
                        assert(u.subrange(i, i + r.len())[pre.len() + 1 + j] == r[pre.len()
                            + 1 + j]);
                        assert(r[pre.len() + 1 + j] == rest[j]);
                    }
                }
                assert forall|j: int| (file + 1) - 0 <= j < 8 implies #[trigger] acc1[rank * 8
                    + j] is None by {
                    assert(acc1[rank * 8 + j] == acc[rank * 8 + j]);
                }
                lemma_rank_round_trip(u, i1 + 1, sq, rank, file + 1, 0, acc1);
                assert(i1 + 1 + rest.len() == i + r.len());
                assert forall|n: int| 0 <= n < 64 implies row_filled(acc1, sq, rank, file + 1)[n]
                    == goal_acc[n] by {
                    let lo = rank * 8 + (file - empties);
                    if rank * 8 + file + 1 <= n < rank * 8 + 8 {
                    } else if n == rank * 8 + file {
                        assert(acc1[n] == Some(p));
                        assert(sq[n] == Some(p));
                    } else if lo <= n < rank * 8 + file {
                        let j = n - rank * 8;
                        assert(sq[rank * 8 + j] is None);
                        assert(acc[rank * 8 + j] is None);
                        assert(acc1[n] == acc[n]);
                    } else {
                        assert(acc1[n] == acc[n]);
                    }
                }
                assert(row_filled(acc1, sq, rank, file + 1) =~= goal_acc);
            },
            None => {
                assert(r == render_rank(sq, rank, file + 1, empties + 1));
                lemma_rank_round_trip(u, i, sq, rank, file + 1, empties + 1, acc);
                assert(row_filled(acc, sq, rank, (file + 1) - (empties + 1)) == goal_acc);
            },
        }
    }
}


/// The accumulator with every rank up to `rank` copied in.
pub open spec fn rows_filled(
    acc: Seq<Option<Piece>>,
    sq: Seq<Option<Piece>>,
    rank: int,
) -> Seq<Option<Piece>> {
    Seq::new(64, |n: int| if n < (rank + 1) * 8 { sq[n] } else { acc[n] })
}

/// Reading back the written ranks from `rank` down fills them all in.
proof fn lemma_ranks_round_trip(
    u: Seq<char>,
    i: int,
    sq: Seq<Option<Piece>>,
    rank: int,
    acc: Seq<Option<Piece>>,
)
    requires
        sq.len() == 64,
        acc.len() == 64,
        0 <= rank <= 7,
        0 <= i,
        i + render_ranks_down(sq, rank).len() <= u.len(),
        u.subrange(i, i + render_ranks_down(sq, rank).len()) == render_ranks_down(sq, rank),
        forall|n: int| 0 <= n < (rank + 1) * 8 ==> #[trigger] acc[n] is None,
    ensures
        place_rec(u, i, rank, 0, acc) == place_rec(
            u,
            i + render_ranks_down(sq, rank).len(),
            0,
            8,
            rows_filled(acc, sq, rank),
        ),
    decreases rank,
{
    let w = render_ranks_down(sq, rank);
    if rank <= 0 {
        assert(w == render_rank(sq, 0, 0, 0));
        assert forall|j: int| 0 - 0 <= j < 8 implies #[trigger] acc[0 * 8 + j] is None by {
            assert(acc[j] is None);
        }
        lemma_rank_round_trip(u, i, sq, 0, 0, 0, acc);
        assert(row_filled(acc, sq, 0, 0) =~= rows_filled(acc, sq, 0));
    } else {
        let head = render_rank(sq, rank, 0, 0);
        let rest = render_ranks_down(sq, rank - 1);
        assert(w == head + seq!['/'] + rest);
        assert(u.subrange(i, i + head.len()) =~= head) by {
            assert forall|j: int| 0 <= j < head.len() implies u.subrange(i, i + head.len())[j]
                == head[j] by {
                assert(u.subrange(i, i + w.len())[j] == w[j]);
                assert(w[j] == head[j]);
            }
        }
        assert forall|j: int| 0 - 0 <= j < 8 implies #[trigger] acc[rank * 8 + j] is None by {
            assert(acc[rank * 8 + j] is None);
        }
        lemma_rank_round_trip(u, i, sq, rank, 0, 0, acc);
        let acc2 = row_filled(acc, sq, rank, 0);
        let i1 = i + head.len();
        assert(u[i1] == '/') by {
            assert(u.subrange(i, i + w.len())[head.len() as int] == w[head.len() as int]);
            assert(w[head.len() as int] == '/');
        }
        assert(place_rec(u, i1, rank, 8, acc2) == place_rec(u, i1 + 1, rank - 1, 0, acc2));
        assert(u.subrange(i1 + 1, i1 + 1 + rest.len()) =~= rest) by {
            assert forall|j: int| 0 <= j < rest.len() implies u.subrange(
                i1 + 1,
                i1 + 1 + rest.len(),
            )[j] == rest[j] by {
                assert(u.subrange(i, i + w.len())[head.len() + 1 + j] == w[head.len() + 1 + j]);
                assert(w[head.len() + 1 + j] == rest[j]);
            }
        }
        assert forall|n: int| 0 <= n < rank * 8 implies #[trigger] acc2[n] is None by {
            assert(acc[n] is None);
        }
        lemma_ranks_round_trip(u, i1 + 1, sq, rank - 1, acc2);
        assert(i1 + 1 + rest.len() == i + w.len());
        assert(rows_filled(acc2, sq, rank - 1) =~= rows_filled(acc, sq, rank));
    }
}

/// The written placement field reads back as exactly the squares it was
/// written for.
pub proof fn lemma_placement_round_trip(sq: Seq<Option<Piece>>)
    requires
        sq.len() == 64,
    ensures
        place_rec(render_ranks_down(sq, 7), 0, 7, 0, empty_squares()) == Some(sq),
{
    let u = render_ranks_down(sq, 7);
    assert(u.subrange(0, u.len() as int) =~= u);
    lemma_ranks_round_trip(u, 0, sq, 7, empty_squares());
    let res = rows_filled(empty_squares(), sq, 7);
    assert(place_rec(u, u.len() as int, 0, 8, res) == Some(res));
    assert(res =~= sq);
}


/// FEN round trip: a position written out as a record and parsed back is
/// recovered exactly — squares, side to move, castling rights and
/// en-passant target — as long as only the four castling bits are in use.
/// The half-move and full-move counters are not part of the position.
#[verifier::rlimit(100)]
pub proof fn lemma_fen_round_trip(v: BoardView)
    requires
        v.squares.len() == 64,
        v.castling_rights < 16,
    ensures
        parse_fen(render_fen(v)) == Some(v),
{
    let u = render_fen(v);
    let p = render_ranks_down(v.squares, 7);
    let sd = side_chars(v.active_player);
    let c = castling_chars(v.castling_rights);
    let e = ep_chars(v.en_passant_target);
    let pl = p.len() as int;
    let sl = sd.len() as int;
    let cl = c.len() as int;
    let el = e.len() as int;
    lemma_render_ranks_chars(v.squares, 7);
    lemma_castling_chars_chars(v.castling_rights);
    lemma_ep_chars_chars(v.en_passant_target);
    assert(sl == 1);
    assert(!is_fen_space(sd[0]));
    assert(u == p + (seq![' '] + sd + seq![' '] + c + seq![' '] + e + seq![' ', '0', ' ', '1']));
    let len = u.len() as int;
    assert(len == pl + 1 + sl + 1 + cl + 1 + el + 4);

    let i1 = pl + 1;
    let e1 = i1 + sl;
    let i2 = e1 + 1;
    let e2 = i2 + cl;
    let i3 = e2 + 1;
    let e3 = i3 + el;
    let i4 = e3 + 1;
    let e4 = i4 + 1;
    let i5 = e4 + 1;
    let e5 = i5 + 1;

    assert forall|j: int| 0 <= j < pl implies u[j] == p[j] && !is_fen_space(#[trigger] u[j]) by {
        assert(!is_fen_space(p[j]));
    }
    assert(is_fen_space(u[pl]));
    assert(u[i1] == sd[0] && !is_fen_space(u[i1]));
    assert(is_fen_space(u[e1]));
    assert forall|j: int| i2 <= j < e2 implies u[j] == c[j - i2] && !is_fen_space(
        #[trigger] u[j],
    ) by {
        assert(!is_fen_space(c[j - i2]));
    }
    assert(is_fen_space(u[e2]));
    assert forall|j: int| i3 <= j < e3 implies u[j] == e[j - i3] && !is_fen_space(
        #[trigger] u[j],
    ) by {
        assert(!is_fen_space(e[j - i3]));
    }
    assert(is_fen_space(u[e3]));
    assert(u[i4] == '0' && !is_fen_space(u[i4]));
    assert(is_fen_space(u[e4]));
    assert(u[i5] == '1' && !is_fen_space(u[i5]));

    lemma_skip_at(u, 0);
    lemma_token_end_at(u, 0, pl);
    lemma_skip_one(u, pl);
    lemma_token_end_at(u, i1, e1);
    lemma_skip_one(u, e1);
    lemma_token_end_at(u, i2, e2);
    lemma_skip_one(u, e2);
    lemma_token_end_at(u, i3, e3);
    lemma_skip_one(u, e3);
    lemma_token_end_at(u, i4, e4);
    lemma_skip_one(u, e4);
    lemma_token_end_at(u, i5, e5);
    lemma_skip_at(u, e5);

    assert(skip_spaces(u, 0) == 0);
    assert(token_end(u, 0) == pl);
    assert(skip_spaces(u, pl) == i1);
    assert(token_end(u, i1) == e1);
    assert(skip_spaces(u, e1) == i2);
    assert(token_end(u, i2) == e2);
    assert(skip_spaces(u, e2) == i3);
    assert(token_end(u, i3) == e3);
    assert(skip_spaces(u, e3) == i4);
    assert(token_end(u, i4) == e4);
    assert(skip_spaces(u, e4) == i5);
    assert(token_end(u, i5) == e5);
    assert(skip_spaces(u, e5) == len);

    assert(u.subrange(0, pl) =~= p);
    assert(u.subrange(i1, e1) =~= sd);
    assert(u.subrange(i2, e2) =~= c);
    assert(u.subrange(i3, e3) =~= e);

    lemma_placement_round_trip(v.squares);
    lemma_side_round_trip(v.active_player);
    lemma_castling_round_trip(v.castling_rights);
    lemma_ep_round_trip(v.en_passant_target);

    assert(place_rec(u.subrange(0, pl), 0, 7, 0, empty_squares()) == Some(v.squares));
    assert(parse_side(u.subrange(i1, e1)) == Some(v.active_player));
    assert(castling_rec(u.subrange(i2, e2), 0, 0) == Some(v.castling_rights));
    assert(parse_ep(u.subrange(i3, e3)) == Some(v.en_passant_target));

    assert(parse_fen(u) == Some(
        BoardView {
            squares: v.squares,
            active_player: v.active_player,
            castling_rights: v.castling_rights,
            en_passant_target: v.en_passant_target,
        },
    ));
    assert(BoardView {
        squares: v.squares,
        active_player: v.active_player,
        castling_rights: v.castling_rights,
        en_passant_target: v.en_passant_target,
    } =~= v);
}

} // verus!






