//! The check detector: whether a king is attacked. From the king's square it
//! casts the eight queen-direction rays outward and classifies the first
//! occupied square of each (orthogonal enemy rook or queen checks; diagonal
//! enemy bishop or queen checks; a diagonal enemy pawn exactly one step away
//! in the pawn's attacking direction checks; anything else blocks the ray),
//! then tests the eight knight-offset squares for an enemy knight. An enemy
//! king never gives check.

use vstd::prelude::*;

use crate::board::{
    file_of, find_king, king_at, lemma_mul_succ, rank_of, ray_clear, ray_on_board, ray_sq,
    wf_board,
};
use crate::piece::{Color, Piece, PieceType};

verus! {

/// Queen direction number `k` of the eight, as integer deltas.
pub open spec fn qdir(k: int) -> (int, int) {
    (
        PieceType::Queen.spec_directions()[k].0 as int,
        PieceType::Queen.spec_directions()[k].1 as int,
    )
}

/// Knight offset number `k` of the eight, as integer deltas.
pub open spec fn ndir(k: int) -> (int, int) {
    (
        PieceType::Knight.spec_directions()[k].0 as int,
        PieceType::Knight.spec_directions()[k].1 as int,
    )
}

/// Whether the first piece met on a ray from the king of color `c`, standing
/// `i` steps out in direction (`df`, `dr`), gives check: on an orthogonal ray
/// an enemy rook or queen; on a diagonal ray an enemy bishop or queen, or an
/// enemy pawn exactly one step away in the direction the pawn attacks.
pub open spec fn threatens(p: Piece, c: Color, df: int, dr: int, i: int) -> bool {
    p.color != c && (if df == 0 || dr == 0 {
        p.title == PieceType::Queen || p.title == PieceType::Rook
    } else {
        p.title == PieceType::Queen || p.title == PieceType::Bishop || (p.title
            == PieceType::Pawn && i == 1 && dr == c.spec_forward())
    })
}

/// Whether the square `i` steps out from `s` in direction (`df`, `dr`) holds
/// a piece that checks the king of color `c` on `s`, with every square
/// between them empty.
pub open spec fn ray_threat_at(
    b: Seq<Option<Piece>>,
    s: int,
    c: Color,
    df: int,
    dr: int,
    i: int,
) -> bool {
    &&& 1 <= i
    &&& ray_on_board(s, df, dr, i)
    &&& ray_clear(b, s, df, dr, i)
    &&& b[ray_sq(s, df, dr, i)] matches Some(p) && threatens(p, c, df, dr, i)
}

/// Whether some piece checks the king of color `c` on `s` along direction
/// (`df`, `dr`).
pub open spec fn attacked_from_dir(
    b: Seq<Option<Piece>>,
    s: int,
    c: Color,
    df: int,
    dr: int,
) -> bool {
    exists|i: int| #[trigger] ray_threat_at(b, s, c, df, dr, i)
}

/// Whether knight offset `k` from `s` lands on board and holds an enemy
/// knight of the king of color `c`.
pub open spec fn knight_threat_at(b: Seq<Option<Piece>>, s: int, c: Color, k: int) -> bool {
    &&& ray_on_board(s, ndir(k).0, ndir(k).1, 1)
    &&& b[ray_sq(s, ndir(k).0, ndir(k).1, 1)] matches Some(p) && p.color != c && p.title
        == PieceType::Knight
}

/// Whether the king of color `c` standing on `s` is attacked.
pub open spec fn king_square_attacked(b: Seq<Option<Piece>>, s: int, c: Color) -> bool {
    ||| exists|k: int| 0 <= k < 8 && attacked_from_dir(b, s, c, qdir(k).0, qdir(k).1)
    ||| exists|k: int| 0 <= k < 8 && #[trigger] knight_threat_at(b, s, c, k)
}

/// Whether the side `c` is in check: it has a king and that king's square is
/// attacked.
pub open spec fn in_check(b: Seq<Option<Piece>>, c: Color) -> bool {
    exists|k: int| #[trigger] king_at(b, c, k) && king_square_attacked(b, k, c)
}

/// A ray whose first square lies off the board attacks nothing: every
/// farther step would need that square inside the board.
pub proof fn lemma_dir_off_board(b: Seq<Option<Piece>>, s: int, c: Color, df: int, dr: int)
    requires
        !ray_on_board(s, df, dr, 1),
    ensures
        !attacked_from_dir(b, s, c, df, dr),
{
    assert forall|i: int| !ray_threat_at(b, s, c, df, dr, i) by {
        if i > 1 {
            if ray_clear(b, s, df, dr, i) {
                assert(b[ray_sq(s, df, dr, 1)] is None);
                assert(ray_on_board(s, df, dr, 1));
            }
        }
    }
}

/// A ray whose first square holds a piece that does not itself check the
/// king attacks nothing: that piece blocks everything behind it.
pub proof fn lemma_dir_blocked(b: Seq<Option<Piece>>, s: int, c: Color, df: int, dr: int)
    requires
        b[ray_sq(s, df, dr, 1)] matches Some(p) && !threatens(p, c, df, dr, 1),
    ensures
        !attacked_from_dir(b, s, c, df, dr),
{
    assert forall|i: int| !ray_threat_at(b, s, c, df, dr, i) by {
        if i > 1 {
            if ray_clear(b, s, df, dr, i) {
                assert(b[ray_sq(s, df, dr, 1)] is None);
            }
        }
    }
}

/// A king whose on-board neighbor squares all hold friendly pieces, with no
/// enemy knight a knight's move away, is not attacked.
pub proof fn lemma_surrounded_king_safe(b: Seq<Option<Piece>>, s: int, c: Color)
    requires
        forall|k: int|
            0 <= k < 8 ==> (!ray_on_board(s, qdir(k).0, qdir(k).1, 1) || (b[#[trigger] ray_sq(
                s,
                qdir(k).0,
                qdir(k).1,
                1,
            )] matches Some(p) && p.color == c)),
        forall|k: int| 0 <= k < 8 ==> !(#[trigger] knight_threat_at(b, s, c, k)),
    ensures
        !king_square_attacked(b, s, c),
{
    assert forall|k: int| 0 <= k < 8 implies !attacked_from_dir(b, s, c, qdir(k).0, qdir(k).1) by {
        if !ray_on_board(s, qdir(k).0, qdir(k).1, 1) {
            lemma_dir_off_board(b, s, c, qdir(k).0, qdir(k).1);
        } else {
            assert(b[ray_sq(s, qdir(k).0, qdir(k).1, 1)] matches Some(p) && p.color == c);
            lemma_dir_blocked(b, s, c, qdir(k).0, qdir(k).1);
        }
    }
}

/// The queen directions are unit steps and never (0, 0).
proof fn lemma_qdir_bounds(k: int)
    requires
        0 <= k < 8,
    ensures
        -1 <= qdir(k).0 <= 1,
        -1 <= qdir(k).1 <= 1,
        !(qdir(k).0 == 0 && qdir(k).1 == 0),
{
    if k == 0 {
    } else if k == 1 {
    } else if k == 2 {
    } else if k == 3 {
    } else if k == 4 {
    } else if k == 5 {
    } else if k == 6 {
    } else {
        assert(k == 7);
    }
}

/// The knight offsets stay within two files and two ranks.
proof fn lemma_ndir_bounds(k: int)
    requires
        0 <= k < 8,
    ensures
        -2 <= ndir(k).0 <= 2,
        -2 <= ndir(k).1 <= 2,
{
    if k == 0 {
    } else if k == 1 {
    } else if k == 2 {
    } else if k == 3 {
    } else if k == 4 {
    } else if k == 5 {
    } else if k == 6 {
    } else {
        assert(k == 7);
    }
}

/// Walks one ray outward from the king of color `c` on `ksq` and reports
/// whether its first occupied square checks that king.
fn ray_threat(board: &Vec<Option<Piece>>, ksq: usize, c: Color, df: i32, dr: i32) -> (r: bool)
    requires
        board@.len() == 64,
        ksq < 64,
        -1 <= df <= 1,
        -1 <= dr <= 1,
        !(df == 0 && dr == 0),
    ensures
        r == attacked_from_dir(board@, ksq as int, c, df as int, dr as int),
{
    let ghost s = ksq as int;
    let ghost dfi = df as int;
    let ghost dri = dr as int;
    let kf = (ksq % 8) as i32;
    let kr = (ksq / 8) as i32;
    let mut f = kf + df;
    let mut r = kr + dr;
    let mut i: i32 = 1;
    while 0 <= f && f < 8 && 0 <= r && r < 8
        invariant
            board@.len() == 64,
            ksq < 64,
            -1 <= df <= 1,
            -1 <= dr <= 1,
            !(df == 0 && dr == 0),
            s == ksq as int,
            dfi == df as int,
            dri == dr as int,
            kf == file_of(s),
            kr == rank_of(s),
            1 <= i <= 8,
            f == kf + i * df,
            r == kr + i * dr,
            ray_clear(board@, s, dfi, dri, i as int),
        decreases 8 - i,
    {
        proof {
            assert(ray_on_board(s, dfi, dri, i as int));
            assert(ray_sq(s, dfi, dri, i as int) == r * 8 + f);
        }
        let sq = (r * 8 + f) as usize;
        match board[sq] {
            Some(piece) => {
                let threat = if df == 0 || dr == 0 {
                    piece.color() != c && (piece.title() == PieceType::Queen || piece.title()
                        == PieceType::Rook)
                } else {
                    piece.color() != c && (piece.title() == PieceType::Queen || piece.title()
                        == PieceType::Bishop || (piece.title() == PieceType::Pawn && i == 1 && dr
                        == c.forward()))
                };
                proof {
                    let ii = i as int;
                    assert(threat == threatens(piece, c, dfi, dri, ii));
                    if threat {
                        assert(ray_threat_at(board@, s, c, dfi, dri, ii));
                    } else {
                        assert forall|i2: int| !ray_threat_at(board@, s, c, dfi, dri, i2) by {
                            if 1 <= i2 < ii {
                                assert(board@[ray_sq(s, dfi, dri, i2)] is None);
                            } else if i2 == ii {
                            } else if i2 > ii {
                                if ray_clear(board@, s, dfi, dri, i2) {
                                    assert(board@[ray_sq(s, dfi, dri, ii)] is None);
                                }
                            }
                        }
                    }
                }
                return threat;
            },
            None => {},
        }
        proof {
            lemma_mul_succ(i as int, dfi);
            lemma_mul_succ(i as int, dri);
            assert forall|j: int| 1 <= j < i + 1 implies ray_on_board(s, dfi, dri, j) && board@[
                #[trigger] ray_sq(s, dfi, dri, j)
            ] is None by {
                if j < i {
                    assert(ray_on_board(s, dfi, dri, j) && board@[ray_sq(s, dfi, dri, j)]
                        is None);
                }
            }
        }
        f = f + df;
        r = r + dr;
        i = i + 1;
    }
    proof {
        let ii = i as int;
        assert(!ray_on_board(s, dfi, dri, ii));
        assert forall|i2: int| !ray_threat_at(board@, s, c, dfi, dri, i2) by {
            if 1 <= i2 < ii {
                assert(board@[ray_sq(s, dfi, dri, i2)] is None);
            } else if i2 >= ii {
                if ray_clear(board@, s, dfi, dri, i2) && i2 > ii {
                    assert(board@[ray_sq(s, dfi, dri, ii)] is None);
                    assert(ray_on_board(s, dfi, dri, ii));
                }
            }
        }
    }
    false
}

/// Tests the eight knight-offset squares around the king of color `c` on
/// `ksq` for an enemy knight.
fn knight_threat(board: &Vec<Option<Piece>>, ksq: usize, c: Color) -> (r: bool)
    requires
        board@.len() == 64,
        ksq < 64,
    ensures
        r == exists|k: int| 0 <= k < 8 && #[trigger] knight_threat_at(board@, ksq as int, c, k),
{
    let ghost s = ksq as int;
    let directions = PieceType::Knight.directions();
    let kf = (ksq % 8) as i32;
    let kr = (ksq / 8) as i32;
    let mut k: usize = 0;
    while k < 8
        invariant
            board@.len() == 64,
            ksq < 64,
            s == ksq as int,
            kf == file_of(s),
            kr == rank_of(s),
            k <= 8,
            directions@ == PieceType::Knight.spec_directions(),
            forall|k2: int| 0 <= k2 < k ==> !knight_threat_at(board@, s, c, k2),
        decreases 8 - k,
    {
        let d = directions[k];
        proof {
            lemma_ndir_bounds(k as int);
            assert(ndir(k as int).0 == d.0 as int && ndir(k as int).1 == d.1 as int);
        }
        let f = kf + d.0;
        let r = kr + d.1;
        if 0 <= f && f < 8 && 0 <= r && r < 8 {
            proof {
                assert(ray_sq(s, d.0 as int, d.1 as int, 1) == r * 8 + f);
            }
            let sq = (r * 8 + f) as usize;
            match board[sq] {
                Some(piece) => {
                    if piece.color() != c && piece.title() == PieceType::Knight {
                        proof {
                            assert(knight_threat_at(board@, s, c, k as int));
                        }
                        return true;
                    }
                },
                None => {},
            }
        }
        proof {
            assert(!knight_threat_at(board@, s, c, k as int));
        }
        k = k + 1;
    }
    false
}

/// Whether the king of color `c` standing on `ksq` is attacked on the given
/// board.
pub fn king_square_in_check(board: &Vec<Option<Piece>>, ksq: usize, c: Color) -> (r: bool)
    requires
        board@.len() == 64,
        ksq < 64,
    ensures
        r == king_square_attacked(board@, ksq as int, c),
{
    let ghost s = ksq as int;
    let directions = PieceType::Queen.directions();
    let mut k: usize = 0;
    while k < 8
        invariant
            board@.len() == 64,
            ksq < 64,
            s == ksq as int,
            directions@ == PieceType::Queen.spec_directions(),
            k <= 8,
            forall|k2: int|
                0 <= k2 < k ==> !attacked_from_dir(board@, s, c, qdir(k2).0, qdir(k2).1),
        decreases 8 - k,
    {
        let d = directions[k];
        proof {
            lemma_qdir_bounds(k as int);
            assert(qdir(k as int).0 == d.0 as int && qdir(k as int).1 == d.1 as int);
        }
        if ray_threat(board, ksq, c, d.0, d.1) {
            return true;
        }
        k = k + 1;
    }
    knight_threat(board, ksq, c)
}

/// Whether the side `c` is in check.
pub fn color_in_check(board: &Vec<Option<Piece>>, color: Color) -> (r: bool)
    requires
        wf_board(board@),
    ensures
        r == in_check(board@, color),
{
    match find_king(board, color) {
        None => {
            proof {
                assert forall|k: int| !(#[trigger] king_at(board@, color, k)
                    && king_square_attacked(board@, k, color)) by {
                    if 0 <= k < 64 {
                    } else {
                    }
                }
            }
            false
        },
        Some(ksq) => {
            let r = king_square_in_check(board, ksq, color);
            proof {
                if r {
                    assert(king_at(board@, color, ksq as int));
                } else {
                    assert forall|k: int| !(#[trigger] king_at(board@, color, k)
                        && king_square_attacked(board@, k, color)) by {
                        if king_at(board@, color, k) {
                            assert(king_at(board@, color, ksq as int));
                            assert(k == ksq as int);
                        }
                    }
                }
            }
            r
        },
    }
}

} // verus!
