//! The move geometry engine: for a piece on a square, the set of legal
//! destination squares. Candidate squares follow the piece's raw geometry
//! (single steps for king and knight, rays cast until blocked for rook,
//! bishop and queen, and the pawn's forward, double-step and diagonal-capture
//! rules), and every candidate is kept only if the mover's own king is not in
//! check on the board that results from hypothetically making the move.

use vstd::prelude::*;

use crate::board::{
    board_from_move, file_of, lemma_apply_move_wf, lemma_mul_succ, lemma_mul_unit, on_board,
    rank_of, ray_clear, ray_on_board, ray_sq, spec_apply_move, square_at, wf_board,
};
use crate::check::{color_in_check, in_check};
use crate::codec::{
    as_standard_notation, notation_of, parse_coordinate, square_of, valid_notation,
    lemma_square_round_trip,
};
use crate::piece::{Color, Piece, PieceType};

verus! {

/// Direction number `k` of piece kind `t`, as integer deltas.
pub open spec fn tdir(t: PieceType, k: int) -> (int, int) {
    (t.spec_directions()[k].0 as int, t.spec_directions()[k].1 as int)
}

/// Whether the mover of color `c` may land on `dest`: it is empty or holds
/// an enemy piece.
pub open spec fn capture_ok(b: Seq<Option<Piece>>, dest: int, c: Color) -> bool {
    b[dest] matches Some(q) ==> q.color != c
}

/// Whether the square `i` steps from `src` in direction (`df`, `dr`) is a
/// candidate destination for a ray-casting mover of color `c`: it lies on
/// the board, every square between is empty, and it is empty or
/// enemy-occupied.
pub open spec fn slider_dest_at(
    b: Seq<Option<Piece>>,
    src: int,
    c: Color,
    df: int,
    dr: int,
    i: int,
) -> bool {
    &&& 1 <= i
    &&& ray_on_board(src, df, dr, i)
    &&& ray_clear(b, src, df, dr, i)
    &&& capture_ok(b, ray_sq(src, df, dr, i), c)
}

/// Whether `dest` is a candidate destination of a rook, bishop or queen of
/// color `c` on `src`.
pub open spec fn slider_dest(
    b: Seq<Option<Piece>>,
    src: int,
    c: Color,
    t: PieceType,
    dest: int,
) -> bool {
    exists|k: int, i: int|
        {
            &&& 0 <= k < t.spec_directions().len()
            &&& #[trigger] slider_dest_at(b, src, c, tdir(t, k).0, tdir(t, k).1, i)
            &&& dest == ray_sq(src, tdir(t, k).0, tdir(t, k).1, i)
        }
}

/// Whether `dest` is a candidate destination of a king or knight of color
/// `c` on `src`: one offset step that stays on the board, onto an empty or
/// enemy-occupied square.
pub open spec fn step_dest(
    b: Seq<Option<Piece>>,
    src: int,
    c: Color,
    t: PieceType,
    dest: int,
) -> bool {
    exists|k: int|
        {
            &&& 0 <= k < t.spec_directions().len()
            &&& #[trigger] ray_on_board(src, tdir(t, k).0, tdir(t, k).1, 1)
            &&& dest == ray_sq(src, tdir(t, k).0, tdir(t, k).1, 1)
            &&& capture_ok(b, dest, c)
        }
}

/// Whether `dest` is a candidate destination of the pawn `p` on `src`: one
/// step straight ahead onto an empty square; two steps straight ahead onto
/// an empty square over an empty square, if the pawn has never moved; or one
/// step diagonally ahead onto an enemy piece.
pub open spec fn pawn_dest(b: Seq<Option<Piece>>, src: int, p: Piece, dest: int) -> bool {
    let f = file_of(src);
    let r = rank_of(src);
    let fw = p.color.spec_forward();
    ||| (on_board(f, r + fw) && dest == square_at(f, r + fw) && b[dest] is None)
    ||| (on_board(f, r + 2 * fw) && dest == square_at(f, r + 2 * fw) && !p.has_moved && b[square_at(
        f,
        r + fw,
    )] is None && b[dest] is None)
    ||| (on_board(f - 1, r + fw) && dest == square_at(f - 1, r + fw) && (b[dest] matches Some(q)
        && q.color != p.color))
    ||| (on_board(f + 1, r + fw) && dest == square_at(f + 1, r + fw) && (b[dest] matches Some(q)
        && q.color != p.color))
}

/// Whether `dest` is a candidate destination of the piece on `src` under the
/// raw movement rules, before the self-check filter.
pub open spec fn pseudo_dest(b: Seq<Option<Piece>>, src: int, dest: int) -> bool {
    b[src] matches Some(p) && (match p.title {
        PieceType::Pawn => pawn_dest(b, src, p, dest),
        PieceType::Rook | PieceType::Bishop | PieceType::Queen => slider_dest(
            b,
            src,
            p.color,
            p.title,
            dest,
        ),
        PieceType::King | PieceType::Knight => step_dest(b, src, p.color, p.title, dest),
    })
}

/// Whether moving the piece on `src` to `dest` is legal: `dest` is a
/// candidate under the raw movement rules, and the mover's own side is not
/// in check on the resulting board.
pub open spec fn legal_dest(b: Seq<Option<Piece>>, src: int, dest: int) -> bool {
    &&& 0 <= src < 64
    &&& 0 <= dest < 64
    &&& pseudo_dest(b, src, dest)
    &&& !in_check(spec_apply_move(b, src, dest), b[src]->0.color)
}

/// The legal destinations along one ray, from step `i` outward, in step
/// order: empty squares that pass the self-check filter, up to and
/// including a capture of the first piece met if it is an enemy.
pub open spec fn ray_list(
    b: Seq<Option<Piece>>,
    src: int,
    c: Color,
    df: int,
    dr: int,
    i: int,
) -> Seq<u8>
    decreases 9 - i,
{
    if i < 1 || i > 8 || !ray_on_board(src, df, dr, i) {
        Seq::empty()
    } else {
        let sq = ray_sq(src, df, dr, i);
        match b[sq] {
            None => {
                let rest = ray_list(b, src, c, df, dr, i + 1);
                if !in_check(spec_apply_move(b, src, sq), c) {
                    seq![sq as u8] + rest
                } else {
                    rest
                }
            },
            Some(q) => {
                if q.color != c && !in_check(spec_apply_move(b, src, sq), c) {
                    seq![sq as u8]
                } else {
                    Seq::empty()
                }
            },
        }
    }
}

/// The legal destinations of a rook, bishop or queen of color `c` on `src`,
/// from direction number `k` on: one full ray per direction, in direction
/// order.
pub open spec fn slider_list(
    b: Seq<Option<Piece>>,
    src: int,
    c: Color,
    t: PieceType,
    k: int,
) -> Seq<u8>
    decreases t.spec_directions().len() - k,
{
    if k < 0 || k >= t.spec_directions().len() {
        Seq::empty()
    } else {
        ray_list(b, src, c, tdir(t, k).0, tdir(t, k).1, 1) + slider_list(b, src, c, t, k + 1)
    }
}

/// The legal single-step destination of a king or knight of color `c` on
/// `src` along direction number `k`, as a sequence of at most one square.
pub open spec fn step_item(
    b: Seq<Option<Piece>>,
    src: int,
    c: Color,
    t: PieceType,
    k: int,
) -> Seq<u8> {
    let d = tdir(t, k);
    let sq = ray_sq(src, d.0, d.1, 1);
    if ray_on_board(src, d.0, d.1, 1) && capture_ok(b, sq, c) && !in_check(
        spec_apply_move(b, src, sq),
        c,
    ) {
        seq![sq as u8]
    } else {
        Seq::empty()
    }
}

/// The legal destinations of a king or knight of color `c` on `src`, from
/// direction number `k` on, in direction order.
pub open spec fn step_list(
    b: Seq<Option<Piece>>,
    src: int,
    c: Color,
    t: PieceType,
    k: int,
) -> Seq<u8>
    decreases t.spec_directions().len() - k,
{
    if k < 0 || k >= t.spec_directions().len() {
        Seq::empty()
    } else {
        step_item(b, src, c, t, k) + step_list(b, src, c, t, k + 1)
    }
}

/// The legal destinations of the pawn `p` on `src`: forward one, forward
/// two, capture toward the lower file, capture toward the higher file, in
/// that order, each present only when its rule and the self-check filter
/// allow it.
pub open spec fn pawn_list(b: Seq<Option<Piece>>, src: int, p: Piece) -> Seq<u8> {
    let f = file_of(src);
    let r = rank_of(src);
    let fw = p.color.spec_forward();
    let one = square_at(f, r + fw);
    let two = square_at(f, r + 2 * fw);
    let low = square_at(f - 1, r + fw);
    let high = square_at(f + 1, r + fw);
    (if on_board(f, r + fw) && b[one] is None && !in_check(spec_apply_move(b, src, one), p.color) {
        seq![one as u8]
    } else {
        Seq::empty()
    }) + (if on_board(f, r + 2 * fw) && !p.has_moved && b[one] is None && b[two] is None
        && !in_check(spec_apply_move(b, src, two), p.color) {
        seq![two as u8]
    } else {
        Seq::empty()
    }) + (if on_board(f - 1, r + fw) && (b[low] matches Some(q) && q.color != p.color)
        && !in_check(spec_apply_move(b, src, low), p.color) {
        seq![low as u8]
    } else {
        Seq::empty()
    }) + (if on_board(f + 1, r + fw) && (b[high] matches Some(q) && q.color != p.color)
        && !in_check(spec_apply_move(b, src, high), p.color) {
        seq![high as u8]
    } else {
        Seq::empty()
    })
}

/// The legal destinations of the piece on `src`, in generation order: the
/// piece's directions in their fixed order, rays walked outward step by
/// step. Empty when the square is empty or its piece has no legal move.
pub open spec fn moves_list(b: Seq<Option<Piece>>, src: int) -> Seq<u8> {
    match b[src] {
        None => Seq::empty(),
        Some(p) => match p.title {
            PieceType::Pawn => pawn_list(b, src, p),
            PieceType::Rook | PieceType::Bishop | PieceType::Queen => slider_list(
                b,
                src,
                p.color,
                p.title,
                0,
            ),
            PieceType::King | PieceType::Knight => step_list(b, src, p.color, p.title, 0),
        },
    }
}

/// Whether the square list `v` holds the square `d`.
pub open spec fn contains_sq(v: Seq<u8>, d: u8) -> bool {
    exists|n: int| 0 <= n < v.len() && v[n] == d
}

/// Whether every square in `v` is a legal destination of the piece on `src`.
pub open spec fn sound_dests(b: Seq<Option<Piece>>, src: int, v: Seq<u8>) -> bool {
    forall|n: int| 0 <= n < v.len() ==> legal_dest(b, src, (#[trigger] v[n]) as int)
}

/// Whether every square of `v1` also stands in `v2`.
pub open spec fn keeps(v1: Seq<u8>, v2: Seq<u8>) -> bool {
    forall|d: u8| #[trigger] contains_sq(v1, d) ==> contains_sq(v2, d)
}

/// Whether `v` holds every legal ray destination of a mover of color `c` on
/// `src` in direction (`df`, `dr`).
pub open spec fn dir_covered(
    b: Seq<Option<Piece>>,
    src: int,
    c: Color,
    df: int,
    dr: int,
    v: Seq<u8>,
) -> bool {
    forall|i: int|
        #[trigger] slider_dest_at(b, src, c, df, dr, i) && !in_check(
            spec_apply_move(b, src, ray_sq(src, df, dr, i)),
            c,
        ) ==> contains_sq(v, ray_sq(src, df, dr, i) as u8)
}

/// Whether `v` holds the legal single-step destination of a king or knight
/// of color `c` on `src` along direction number `k` of kind `t`, if that
/// step is legal.
pub open spec fn step_covered(
    b: Seq<Option<Piece>>,
    src: int,
    c: Color,
    t: PieceType,
    k: int,
    v: Seq<u8>,
) -> bool {
    (ray_on_board(src, tdir(t, k).0, tdir(t, k).1, 1) && capture_ok(
        b,
        ray_sq(src, tdir(t, k).0, tdir(t, k).1, 1),
        c,
    ) && !in_check(spec_apply_move(b, src, ray_sq(src, tdir(t, k).0, tdir(t, k).1, 1)), c))
        ==> contains_sq(v, ray_sq(src, tdir(t, k).0, tdir(t, k).1, 1) as u8)
}

/// Appending keeps earlier squares and adds the new one.
proof fn lemma_contains_after_push(v: Seq<u8>, x: u8)
    ensures
        contains_sq(v.push(x), x),
        keeps(v, v.push(x)),
{
    assert(v.push(x)[v.len() as int] == x);
    assert forall|d: u8| contains_sq(v, d) implies contains_sq(v.push(x), d) by {
        let n = choose|n: int| 0 <= n < v.len() && v[n] == d;
        assert(v.push(x)[n] == d);
    }
}

/// Every direction of every piece kind moves at most two files and two
/// ranks per step and is never a null step; king, queen, rook and bishop
/// directions are unit steps.
proof fn lemma_dir_bounds(t: PieceType, k: int)
    requires
        0 <= k < t.spec_directions().len(),
    ensures
        -2 <= tdir(t, k).0 <= 2,
        -2 <= tdir(t, k).1 <= 2,
        !(tdir(t, k).0 == 0 && tdir(t, k).1 == 0),
        (t == PieceType::Rook || t == PieceType::Bishop || t == PieceType::Queen || t
            == PieceType::King) ==> -1 <= tdir(t, k).0 <= 1 && -1 <= tdir(t, k).1 <= 1,
{
    match t {
        PieceType::King | PieceType::Queen | PieceType::Knight => {
            if k == 0 {
            } else if k == 1 {
            } else if k == 2 {
            } else if k == 3 {
            } else if k == 4 {
            } else if k == 5 {
            } else if k == 6 {
            } else {
                assert(k == 7);
            }
        },
        PieceType::Bishop | PieceType::Rook | PieceType::Pawn => {
            if k == 0 {
            } else if k == 1 {
            } else if k == 2 {
            } else {
                assert(k == 3);
            }
        },
    }
}

/// A single-step bounds test for a candidate computed as
/// `to = from + file_move + 8 * rank_move`: the file offset must keep the
/// file on the board (so the step cannot wrap around an edge) and the raw
/// index must stay within the 64 squares.
pub fn move_in_bounds(to: i32, from: usize, file_move: i32) -> (r: bool)
    ensures
        r == (0 <= file_move + file_of(from as int) && file_move + file_of(from as int) <= 7 && 0
            <= to && to <= 63),
{
    let file = (from % 8) as i64;
    let shifted = file_move as i64 + file;
    0 <= shifted && shifted <= 7 && 0 <= to && to <= 63
}

/// A fresh copy of a board.
fn clone_board(board: &Vec<Option<Piece>>) -> (r: Vec<Option<Piece>>)
    ensures
        r@ == board@,
{
    let mut copy: Vec<Option<Piece>> = Vec::new();
    let mut i: usize = 0;
    while i < board.len()
        invariant
            i <= board@.len(),
            copy@.len() == i,
            forall|j: int| 0 <= j < i ==> copy@[j] == board@[j],
        decreases board@.len() - i,
    {
        copy.push(board[i]);
        i = i + 1;
    }
    proof {
        assert(copy@ =~= board@);
    }
    copy
}

/// Whether hypothetically relocating the piece on `src` to `dest` leaves the
/// mover's side out of check; this is the self-check filter applied to every
/// candidate destination.
fn move_escapes_check(board: &Vec<Option<Piece>>, src: usize, dest: usize, mover: Color) -> (r:
    bool)
    requires
        wf_board(board@),
        src < 64,
        dest < 64,
        src != dest,
    ensures
        r == !in_check(spec_apply_move(board@, src as int, dest as int), mover),
{
    let sim = board_from_move(clone_board(board), src, dest);
    proof {
        lemma_apply_move_wf(board@, src as int, dest as int);
    }
    !color_in_check(&sim, mover)
}

/// Walks one ray outward from the slider `piece` on `src`, appending every
/// legal destination along it to `v` in step order.
#[verifier::rlimit(100)]
#[verifier::spinoff_prover]
fn gen_ray_moves(
    board: &Vec<Option<Piece>>,
    src: usize,
    piece: Piece,
    df: i32,
    dr: i32,
    Ghost(k): Ghost<int>,
    v: &mut Vec<u8>,
)
    requires
        wf_board(board@),
        src < 64,
        board@[src as int] == Some(piece),
        piece.title == PieceType::Rook || piece.title == PieceType::Bishop || piece.title
            == PieceType::Queen,
        -1 <= df <= 1,
        -1 <= dr <= 1,
        !(df == 0 && dr == 0),
        0 <= k < piece.title.spec_directions().len(),
        tdir(piece.title, k) == (df as int, dr as int),
        sound_dests(board@, src as int, old(v)@),
    ensures
        sound_dests(board@, src as int, final(v)@),
        keeps(old(v)@, final(v)@),
        dir_covered(board@, src as int, piece.color, df as int, dr as int, final(v)@),
        final(v)@ == old(v)@ + ray_list(board@, src as int, piece.color, df as int, dr as int, 1),
{
    let ghost s = src as int;
    let ghost dfi = df as int;
    let ghost dri = dr as int;
    let ghost c = piece.color;
    let ghost t = piece.title;
    let pc = piece.color();
    let kf = (src % 8) as i32;
    let kr = (src / 8) as i32;
    let mut f = kf + df;
    let mut r = kr + dr;
    let mut i: i32 = 1;
    while 0 <= f && f < 8 && 0 <= r && r < 8
        invariant
            wf_board(board@),
            src < 64,
            board@[s] == Some(piece),
            piece.title == PieceType::Rook || piece.title == PieceType::Bishop || piece.title
                == PieceType::Queen,
            -1 <= df <= 1,
            -1 <= dr <= 1,
            !(df == 0 && dr == 0),
            0 <= k < piece.title.spec_directions().len(),
            tdir(piece.title, k) == (dfi, dri),
            s == src as int,
            dfi == df as int,
            dri == dr as int,
            c == piece.color,
            t == piece.title,
            pc == piece.color,
            kf == file_of(s),
            kr == rank_of(s),
            1 <= i <= 8,
            f == kf + i * df,
            r == kr + i * dr,
            ray_clear(board@, s, dfi, dri, i as int),
            sound_dests(board@, s, v@),
            keeps(old(v)@, v@),
            old(v)@ + ray_list(board@, s, c, dfi, dri, 1) == v@ + ray_list(
                board@,
                s,
                c,
                dfi,
                dri,
                i as int,
            ),
            forall|i2: int|
                #[trigger] slider_dest_at(board@, s, c, dfi, dri, i2) && i2 < i && !in_check(
                    spec_apply_move(board@, s, ray_sq(s, dfi, dri, i2)),
                    c,
                ) ==> contains_sq(v@, ray_sq(s, dfi, dri, i2) as u8),
        decreases 8 - i,
    {
        let ghost ii = i as int;
        proof {
            lemma_mul_unit(ii, dfi);
            lemma_mul_unit(ii, dri);
            assert(ray_on_board(s, dfi, dri, ii));
            assert(ray_sq(s, dfi, dri, ii) == r * 8 + f);
            if df == 1 {
                assert(f > kf);
            } else if df == -1 {
                assert(f < kf);
            } else if dr == 1 {
                assert(r > kr);
            } else {
                assert(r < kr);
            }
        }
        let sq = (r * 8 + f) as usize;
        proof {
            assert(sq != src);
            assert(slider_dest_at(board@, s, c, dfi, dri, ii) == capture_ok(board@, sq as int, c));
        }
        match board[sq] {
            None => {
                proof {
                    assert(ray_list(board@, s, c, dfi, dri, ii) == (if !in_check(
                        spec_apply_move(board@, s, sq as int),
                        c,
                    ) {
                        seq![sq as u8] + ray_list(board@, s, c, dfi, dri, ii + 1)
                    } else {
                        ray_list(board@, s, c, dfi, dri, ii + 1)
                    }));
                }
                if move_escapes_check(board, src, sq, pc) {
                    let ghost v0 = v@;
                    proof {
                        assert(slider_dest_at(board@, s, c, tdir(t, k).0, tdir(t, k).1, ii));
                        assert(sq as int == ray_sq(s, tdir(t, k).0, tdir(t, k).1, ii));
                        assert(slider_dest(board@, s, c, t, sq as int));
                        assert(legal_dest(board@, s, sq as int));
                    }
                    v.push(sq as u8);
                    proof {
                        lemma_contains_after_push(v0, sq as u8);
                        assert(v@ =~= v0 + seq![sq as u8]);
                        assert(v0 + ray_list(board@, s, c, dfi, dri, ii) =~= v@ + ray_list(
                            board@,
                            s,
                            c,
                            dfi,
                            dri,
                            ii + 1,
                        ));
                    }
                }
                proof {
                    lemma_mul_succ(ii, dfi);
                    lemma_mul_succ(ii, dri);
                    assert forall|j: int| 1 <= j < ii + 1 implies ray_on_board(s, dfi, dri, j)
                        && board@[#[trigger] ray_sq(s, dfi, dri, j)] is None by {
                        if j < ii {
                            assert(ray_on_board(s, dfi, dri, j) && board@[ray_sq(s, dfi, dri, j)]
                                is None);
                        }
                    }
                }
                f = f + df;
                r = r + dr;
                i = i + 1;
            },
            Some(occupant) => {
                // The ray stops at the first occupied square, which is a
                // destination only when it holds an enemy piece.
                proof {
                    assert(ray_list(board@, s, c, dfi, dri, ii) == (if occupant.color != c
                        && !in_check(spec_apply_move(board@, s, sq as int), c) {
                        seq![sq as u8]
                    } else {
                        Seq::<u8>::empty()
                    }));
                }
                if occupant.color() != pc {
                    if move_escapes_check(board, src, sq, pc) {
                        let ghost v0 = v@;
                        proof {
                            assert(slider_dest_at(board@, s, c, tdir(t, k).0, tdir(t, k).1, ii));
                            assert(sq as int == ray_sq(s, tdir(t, k).0, tdir(t, k).1, ii));
                            assert(slider_dest(board@, s, c, t, sq as int));
                            assert(legal_dest(board@, s, sq as int));
                        }
                        v.push(sq as u8);
                        proof {
                            lemma_contains_after_push(v0, sq as u8);
                            assert(v@ =~= v0 + seq![sq as u8]);
                        }
                    }
                }
                proof {
                    assert(v@ + Seq::<u8>::empty() =~= v@);
                    assert(old(v)@ + ray_list(board@, s, c, dfi, dri, 1) =~= v@);
                }
                proof {
                    assert forall|i2: int|
                        #[trigger] slider_dest_at(board@, s, c, dfi, dri, i2) && !in_check(
                            spec_apply_move(board@, s, ray_sq(s, dfi, dri, i2)),
                            c,
                        ) implies contains_sq(v@, ray_sq(s, dfi, dri, i2) as u8) by {
                        if i2 < ii {
                            assert(contains_sq(v@, ray_sq(s, dfi, dri, i2) as u8));
                        } else if i2 == ii {
                        } else {
                            assert(board@[ray_sq(s, dfi, dri, ii)] is None);
                        }
                    }
                }
                return ;
            },
        }
    }
    proof {
        let ii = i as int;
        assert(!ray_on_board(s, dfi, dri, ii));
        assert(ray_list(board@, s, c, dfi, dri, ii) == Seq::<u8>::empty());
        assert(old(v)@ + ray_list(board@, s, c, dfi, dri, 1) =~= v@);
        assert forall|i2: int|
            #[trigger] slider_dest_at(board@, s, c, dfi, dri, i2) && !in_check(
                spec_apply_move(board@, s, ray_sq(s, dfi, dri, i2)),
                c,
            ) implies contains_sq(v@, ray_sq(s, dfi, dri, i2) as u8) by {
            if i2 >= ii {
                if i2 > ii {
                    assert(board@[ray_sq(s, dfi, dri, ii)] is None);
                    assert(ray_on_board(s, dfi, dri, ii));
                }
            }
        }
    }
}

/// All legal destinations of the rook, bishop or queen `piece` on `src`, in
/// direction order and step order.
fn gen_slider_moves(board: &Vec<Option<Piece>>, src: usize, piece: Piece) -> (v: Vec<u8>)
    requires
        wf_board(board@),
        src < 64,
        board@[src as int] == Some(piece),
        piece.title == PieceType::Rook || piece.title == PieceType::Bishop || piece.title
            == PieceType::Queen,
    ensures
        sound_dests(board@, src as int, v@),
        forall|d: int|
            0 <= d < 64 && #[trigger] legal_dest(board@, src as int, d) ==> contains_sq(
                v@,
                d as u8,
            ),
        v@ == slider_list(board@, src as int, piece.color, piece.title, 0),
{
    let ghost s = src as int;
    let ghost c = piece.color;
    let ghost t = piece.title;
    let directions = piece.title().directions();
    let mut v: Vec<u8> = Vec::new();
    let mut k: usize = 0;
    proof {
        assert(v@ + slider_list(board@, s, c, t, 0) =~= slider_list(board@, s, c, t, 0));
    }
    while k < directions.len()
        invariant
            wf_board(board@),
            src < 64,
            board@[s] == Some(piece),
            piece.title == PieceType::Rook || piece.title == PieceType::Bishop || piece.title
                == PieceType::Queen,
            s == src as int,
            c == piece.color,
            t == piece.title,
            directions@ == t.spec_directions(),
            k <= directions@.len(),
            sound_dests(board@, s, v@),
            slider_list(board@, s, c, t, 0) == v@ + slider_list(board@, s, c, t, k as int),
            forall|k2: int|
                0 <= k2 < k ==> #[trigger] dir_covered(
                    board@,
                    s,
                    c,
                    tdir(t, k2).0,
                    tdir(t, k2).1,
                    v@,
                ),
        decreases directions@.len() - k,
    {
        let d = directions[k];
        proof {
            lemma_dir_bounds(t, k as int);
        }
        let ghost v0 = v@;
        gen_ray_moves(board, src, piece, d.0, d.1, Ghost(k as int), &mut v);
        proof {
            assert(slider_list(board@, s, c, t, k as int) == ray_list(
                board@,
                s,
                c,
                tdir(t, k as int).0,
                tdir(t, k as int).1,
                1,
            ) + slider_list(board@, s, c, t, k as int + 1));
            assert(v@ == v0 + ray_list(board@, s, c, d.0 as int, d.1 as int, 1));
            assert(v0 + slider_list(board@, s, c, t, k as int) =~= v@ + slider_list(
                board@,
                s,
                c,
                t,
                k as int + 1,
            ));
        }
        proof {
            assert forall|k2: int| 0 <= k2 < k + 1 implies #[trigger] dir_covered(
                board@,
                s,
                c,
                tdir(t, k2).0,
                tdir(t, k2).1,
                v@,
            ) by {
                if k2 < k {
                    assert(dir_covered(board@, s, c, tdir(t, k2).0, tdir(t, k2).1, v0));
                    assert forall|i2: int|
                        #[trigger] slider_dest_at(board@, s, c, tdir(t, k2).0, tdir(t, k2).1, i2)
                            && !in_check(
                            spec_apply_move(board@, s, ray_sq(s, tdir(t, k2).0, tdir(t, k2).1, i2)),
                            c,
                        ) implies contains_sq(
                        v@,
                        ray_sq(s, tdir(t, k2).0, tdir(t, k2).1, i2) as u8,
                    ) by {
                        assert(contains_sq(v0, ray_sq(s, tdir(t, k2).0, tdir(t, k2).1, i2) as u8));
                    }
                } else {
                    assert(tdir(t, k2) == (d.0 as int, d.1 as int));
                }
            }
        }
        k = k + 1;
    }
    proof {
        assert(slider_list(board@, s, c, t, directions@.len() as int) == Seq::<u8>::empty());
        assert(v@ + Seq::<u8>::empty() =~= v@);
        assert forall|dst: int| 0 <= dst < 64 && #[trigger] legal_dest(board@, s, dst)
            implies contains_sq(v@, dst as u8) by {
            assert(slider_dest(board@, s, c, t, dst));
            let (k2, i2) = choose|k2: int, i2: int|
                {
                    &&& 0 <= k2 < t.spec_directions().len()
                    &&& #[trigger] slider_dest_at(board@, s, c, tdir(t, k2).0, tdir(t, k2).1, i2)
                    &&& dst == ray_sq(s, tdir(t, k2).0, tdir(t, k2).1, i2)
                };
            assert(dir_covered(board@, s, c, tdir(t, k2).0, tdir(t, k2).1, v@));
        }
    }
    v
}

/// All legal destinations of the king or knight `piece` on `src`, in
/// direction order.
fn gen_step_moves(board: &Vec<Option<Piece>>, src: usize, piece: Piece) -> (v: Vec<u8>)
    requires
        wf_board(board@),
        src < 64,
        board@[src as int] == Some(piece),
        piece.title == PieceType::King || piece.title == PieceType::Knight,
    ensures
        sound_dests(board@, src as int, v@),
        forall|d: int|
            0 <= d < 64 && #[trigger] legal_dest(board@, src as int, d) ==> contains_sq(
                v@,
                d as u8,
            ),
        v@ == step_list(board@, src as int, piece.color, piece.title, 0),
{
    let ghost s = src as int;
    let ghost c = piece.color;
    let ghost t = piece.title;
    let pc = piece.color();
    let directions = piece.title().directions();
    let kf = (src % 8) as i32;
    let kr = (src / 8) as i32;
    let mut v: Vec<u8> = Vec::new();
    let mut k: usize = 0;
    proof {
        assert(v@ + step_list(board@, s, c, t, 0) =~= step_list(board@, s, c, t, 0));
    }
    while k < directions.len()
        invariant
            wf_board(board@),
            src < 64,
            board@[s] == Some(piece),
            piece.title == PieceType::King || piece.title == PieceType::Knight,
            s == src as int,
            c == piece.color,
            t == piece.title,
            pc == piece.color,
            kf == file_of(s),
            kr == rank_of(s),
            directions@ == t.spec_directions(),
            k <= directions@.len(),
            sound_dests(board@, s, v@),
            step_list(board@, s, c, t, 0) == v@ + step_list(board@, s, c, t, k as int),
            forall|k2: int| 0 <= k2 < k ==> #[trigger] step_covered(board@, s, c, t, k2, v@),
        decreases directions@.len() - k,
    {
        let d = directions[k];
        let ghost kk = k as int;
        proof {
            lemma_dir_bounds(t, kk);
            assert(tdir(t, kk) == (d.0 as int, d.1 as int));
        }
        let f = kf + d.0;
        let r = kr + d.1;
        let ghost v0 = v@;
        let ghost mut added: Seq<u8> = Seq::empty();
        if 0 <= f && f < 8 && 0 <= r && r < 8 {
            proof {
                assert(ray_on_board(s, d.0 as int, d.1 as int, 1));
                assert(ray_sq(s, d.0 as int, d.1 as int, 1) == r * 8 + f);
            }
            let sq = (r * 8 + f) as usize;
            proof {
                if d.0 != 0 {
                    assert(f != kf);
                } else {
                    assert(r != kr);
                }
                assert(sq != src);
            }
            let landing_ok = match board[sq] {
                Some(q) => q.color() != pc,
                None => true,
            };
            if landing_ok {
                if move_escapes_check(board, src, sq, pc) {
                    proof {
                        assert(capture_ok(board@, sq as int, c));
                        assert(ray_on_board(s, tdir(t, kk).0, tdir(t, kk).1, 1));
                        assert(sq as int == ray_sq(s, tdir(t, kk).0, tdir(t, kk).1, 1));
                        assert(step_dest(board@, s, c, t, sq as int));
                        assert(legal_dest(board@, s, sq as int));
                    }
                    v.push(sq as u8);
                    proof {
                        lemma_contains_after_push(v0, sq as u8);
                        added = seq![sq as u8];
                    }
                }
            }
        } else {
            proof {
                assert(!ray_on_board(s, d.0 as int, d.1 as int, 1));
            }
        }
        proof {
            assert(v@ =~= v0 + added);
            assert(added == step_item(board@, s, c, t, kk));
            assert(step_list(board@, s, c, t, kk) == step_item(board@, s, c, t, kk) + step_list(
                board@,
                s,
                c,
                t,
                kk + 1,
            ));
            assert(v0 + step_list(board@, s, c, t, kk) =~= v@ + step_list(board@, s, c, t, kk + 1));
            assert forall|k2: int| 0 <= k2 < k + 1 implies #[trigger] step_covered(
                board@,
                s,
                c,
                t,
                k2,
                v@,
            ) by {
                if k2 < k {
                    assert(step_covered(board@, s, c, t, k2, v0));
                    if ray_on_board(s, tdir(t, k2).0, tdir(t, k2).1, 1) && capture_ok(
                        board@,
                        ray_sq(s, tdir(t, k2).0, tdir(t, k2).1, 1),
                        c,
                    ) && !in_check(
                        spec_apply_move(board@, s, ray_sq(s, tdir(t, k2).0, tdir(t, k2).1, 1)),
                        c,
                    ) {
                        assert(contains_sq(v0, ray_sq(s, tdir(t, k2).0, tdir(t, k2).1, 1) as u8));
                    }
                } else {
                    assert(k2 == kk);
                }
            }
        }
        k = k + 1;
    }
    proof {
        assert(step_list(board@, s, c, t, directions@.len() as int) == Seq::<u8>::empty());
        assert(v@ + Seq::<u8>::empty() =~= v@);
        assert forall|dst: int| 0 <= dst < 64 && #[trigger] legal_dest(board@, s, dst)
            implies contains_sq(v@, dst as u8) by {
            assert(step_dest(board@, s, c, t, dst));
            let k2 = choose|k2: int|
                {
                    &&& 0 <= k2 < t.spec_directions().len()
                    &&& #[trigger] ray_on_board(s, tdir(t, k2).0, tdir(t, k2).1, 1)
                    &&& dst == ray_sq(s, tdir(t, k2).0, tdir(t, k2).1, 1)
                    &&& capture_ok(board@, dst, c)
                };
            assert(step_covered(board@, s, c, t, k2, v@));
        }
    }
    v
}

/// Squares of either part stand in the concatenation.
proof fn lemma_contains_append(a: Seq<u8>, b: Seq<u8>, d: u8)
    ensures
        contains_sq(a, d) ==> contains_sq(a + b, d),
        contains_sq(b, d) ==> contains_sq(a + b, d),
{
    if contains_sq(a, d) {
        let n = choose|n: int| 0 <= n < a.len() && a[n] == d;
        assert((a + b)[n] == d);
    }
    if contains_sq(b, d) {
        let n = choose|n: int| 0 <= n < b.len() && b[n] == d;
        assert((a + b)[a.len() + n] == d);
    }
}

/// The pawn move list is exactly the set of legal pawn destinations: every
/// square on it is legal, and every legal destination stands on it.
proof fn lemma_pawn_list_exact(b: Seq<Option<Piece>>, src: int, p: Piece)
    requires
        0 <= src < 64,
        b[src] == Some(p),
        p.title == PieceType::Pawn,
    ensures
        sound_dests(b, src, pawn_list(b, src, p)),
        forall|d: int|
            0 <= d < 64 && #[trigger] legal_dest(b, src, d) ==> contains_sq(
                pawn_list(b, src, p),
                d as u8,
            ),
{
    let f = file_of(src);
    let r = rank_of(src);
    let fw = p.color.spec_forward();
    let one = square_at(f, r + fw);
    let two = square_at(f, r + 2 * fw);
    let low = square_at(f - 1, r + fw);
    let high = square_at(f + 1, r + fw);
    let i1 = if on_board(f, r + fw) && b[one] is None && !in_check(
        spec_apply_move(b, src, one),
        p.color,
    ) {
        seq![one as u8]
    } else {
        Seq::<u8>::empty()
    };
    let i2 = if on_board(f, r + 2 * fw) && !p.has_moved && b[one] is None && b[two] is None
        && !in_check(spec_apply_move(b, src, two), p.color) {
        seq![two as u8]
    } else {
        Seq::<u8>::empty()
    };
    let i3 = if on_board(f - 1, r + fw) && (b[low] matches Some(q) && q.color != p.color)
        && !in_check(spec_apply_move(b, src, low), p.color) {
        seq![low as u8]
    } else {
        Seq::<u8>::empty()
    };
    let i4 = if on_board(f + 1, r + fw) && (b[high] matches Some(q) && q.color != p.color)
        && !in_check(spec_apply_move(b, src, high), p.color) {
        seq![high as u8]
    } else {
        Seq::<u8>::empty()
    };
    let all = pawn_list(b, src, p);
    assert(all == ((i1 + i2) + i3) + i4);
    assert forall|n: int| 0 <= n < all.len() implies legal_dest(
        b,
        src,
        (#[trigger] all[n]) as int,
    ) by {
        if n < i1.len() {
            assert(all[n] == one as u8);
            assert(pawn_dest(b, src, p, one));
            assert(legal_dest(b, src, one));
        } else if n < i1.len() + i2.len() {
            assert(all[n] == two as u8);
            assert(pawn_dest(b, src, p, two));
            assert(legal_dest(b, src, two));
        } else if n < i1.len() + i2.len() + i3.len() {
            assert(all[n] == low as u8);
            assert(pawn_dest(b, src, p, low));
            assert(legal_dest(b, src, low));
        } else {
            assert(all[n] == high as u8);
            assert(pawn_dest(b, src, p, high));
            assert(legal_dest(b, src, high));
        }
    }
    assert forall|d: int| 0 <= d < 64 && #[trigger] legal_dest(b, src, d) implies contains_sq(
        all,
        d as u8,
    ) by {
        assert(pawn_dest(b, src, p, d));
        if on_board(f, r + fw) && d == one && b[d] is None {
            assert(i1[0] == d as u8);
            assert(contains_sq(i1, d as u8));
            lemma_contains_append(i1, i2, d as u8);
            lemma_contains_append(i1 + i2, i3, d as u8);
            lemma_contains_append((i1 + i2) + i3, i4, d as u8);
        } else if on_board(f, r + 2 * fw) && d == two && !p.has_moved && b[one] is None && b[d]
            is None {
            assert(i2[0] == d as u8);
            assert(contains_sq(i2, d as u8));
            lemma_contains_append(i1, i2, d as u8);
            lemma_contains_append(i1 + i2, i3, d as u8);
            lemma_contains_append((i1 + i2) + i3, i4, d as u8);
        } else if on_board(f - 1, r + fw) && d == low {
            assert(i3[0] == d as u8);
            assert(contains_sq(i3, d as u8));
            lemma_contains_append(i1 + i2, i3, d as u8);
            lemma_contains_append((i1 + i2) + i3, i4, d as u8);
        } else {
            assert(on_board(f + 1, r + fw) && d == high);
            assert(i4[0] == d as u8);
            assert(contains_sq(i4, d as u8));
            lemma_contains_append((i1 + i2) + i3, i4, d as u8);
        }
    }
}

/// All legal destinations of the pawn `piece` on `src`: forward one, forward
/// two, then the two diagonal captures, in that order.
#[verifier::rlimit(100)]
#[verifier::spinoff_prover]
fn gen_pawn_moves(board: &Vec<Option<Piece>>, src: usize, piece: Piece) -> (v: Vec<u8>)
    requires
        wf_board(board@),
        src < 64,
        board@[src as int] == Some(piece),
        piece.title == PieceType::Pawn,
    ensures
        sound_dests(board@, src as int, v@),
        forall|d: int|
            0 <= d < 64 && #[trigger] legal_dest(board@, src as int, d) ==> contains_sq(
                v@,
                d as u8,
            ),
        v@ == pawn_list(board@, src as int, piece),
{
    let ghost s = src as int;
    let ghost c = piece.color;
    let pc = piece.color();
    let fw = pc.forward();
    let kf = (src % 8) as i32;
    let kr = (src / 8) as i32;
    let mut v: Vec<u8> = Vec::new();
    let ghost fwi = fw as int;
    proof {
        assert(kf == file_of(s) && kr == rank_of(s));
        assert(fwi == c.spec_forward());
    }
    // Forward one step, onto an empty square.
    let r1 = kr + fw;
    let ghost dest1 = square_at(kf as int, kr as int + fwi);
    let ghost mut added1: Seq<u8> = Seq::empty();
    if 0 <= r1 && r1 < 8 {
        proof {
            assert(dest1 == r1 * 8 + kf);
        }
        let sq = (r1 * 8 + kf) as usize;
        if board[sq].is_none() {
            if move_escapes_check(board, src, sq, pc) {
                v.push(sq as u8);
                proof {
                    added1 = seq![sq as u8];
                }
            }
        }
    }
    let ghost h1 = v@;
    proof {
        assert(h1 =~= added1);
        assert(added1 == (if on_board(kf as int, kr as int + fwi) && board@[dest1] is None
            && !in_check(spec_apply_move(board@, s, dest1), c) {
            seq![dest1 as u8]
        } else {
            Seq::<u8>::empty()
        }));
    }
    // Forward two steps over an empty square onto an empty square, for a
    // pawn that has never moved.
    let r2 = kr + 2 * fw;
    let ghost dest2 = square_at(kf as int, kr as int + 2 * fwi);
    let ghost mut added2: Seq<u8> = Seq::empty();
    if 0 <= r2 && r2 < 8 && !piece.has_moved() {
        proof {
            assert(dest2 == r2 * 8 + kf);
            assert(square_at(kf as int, kr as int + fwi) == (kr + fw) * 8 + kf);
        }
        let mid = ((kr + fw) * 8 + kf) as usize;
        let sq = (r2 * 8 + kf) as usize;
        if board[mid].is_none() && board[sq].is_none() {
            if move_escapes_check(board, src, sq, pc) {
                v.push(sq as u8);
                proof {
                    added2 = seq![sq as u8];
                }
            }
        }
    }
    let ghost h2 = v@;
    proof {
        assert(h2 =~= h1 + added2);
        assert(added2 == (if on_board(kf as int, kr as int + 2 * fwi) && !piece.has_moved
            && board@[dest1] is None && board@[dest2] is None && !in_check(
            spec_apply_move(board@, s, dest2),
            c,
        ) {
            seq![dest2 as u8]
        } else {
            Seq::<u8>::empty()
        }));
    }
    // Diagonal capture toward the lower file.
    let ghost dest3 = square_at(kf as int - 1, kr as int + fwi);
    let ghost mut added3: Seq<u8> = Seq::empty();
    if kf >= 1 && 0 <= r1 && r1 < 8 {
        proof {
            assert(dest3 == r1 * 8 + (kf - 1));
        }
        let sq = (r1 * 8 + (kf - 1)) as usize;
        let target_enemy = match board[sq] {
            Some(q) => q.color() != pc,
            None => false,
        };
        if target_enemy {
            if move_escapes_check(board, src, sq, pc) {
                v.push(sq as u8);
                proof {
                    added3 = seq![sq as u8];
                }
            }
        }
    }
    let ghost h3 = v@;
    proof {
        assert(h3 =~= h2 + added3);
        assert(added3 == (if on_board(kf as int - 1, kr as int + fwi) && (board@[dest3]
            matches Some(q) && q.color != c) && !in_check(spec_apply_move(board@, s, dest3), c) {
            seq![dest3 as u8]
        } else {
            Seq::<u8>::empty()
        }));
    }
    // Diagonal capture toward the higher file.
    let ghost dest4 = square_at(kf as int + 1, kr as int + fwi);
    let ghost mut added4: Seq<u8> = Seq::empty();
    if kf <= 6 && 0 <= r1 && r1 < 8 {
        proof {
            assert(dest4 == r1 * 8 + (kf + 1));
        }
        let sq = (r1 * 8 + (kf + 1)) as usize;
        let target_enemy = match board[sq] {
            Some(q) => q.color() != pc,
            None => false,
        };
        if target_enemy {
            if move_escapes_check(board, src, sq, pc) {
                v.push(sq as u8);
                proof {
                    added4 = seq![sq as u8];
                }
            }
        }
    }
    proof {
        assert(v@ =~= h3 + added4);
        assert(added4 == (if on_board(kf as int + 1, kr as int + fwi) && (board@[dest4]
            matches Some(q) && q.color != c) && !in_check(spec_apply_move(board@, s, dest4), c) {
            seq![dest4 as u8]
        } else {
            Seq::<u8>::empty()
        }));
        assert(v@ =~= ((added1 + added2) + added3) + added4);
        assert(v@ =~= pawn_list(board@, s, piece));
        lemma_pawn_list_exact(board@, s, piece);
    }
    v
}

/// All legal destinations of the piece on `src`, as square indices in
/// generation order; empty when the square is empty or its piece has no
/// legal move.
pub fn moves_for_square(board: &Vec<Option<Piece>>, src: usize) -> (v: Vec<u8>)
    requires
        wf_board(board@),
        src < 64,
    ensures
        sound_dests(board@, src as int, v@),
        forall|d: int|
            0 <= d < 64 && #[trigger] legal_dest(board@, src as int, d) ==> contains_sq(
                v@,
                d as u8,
            ),
        forall|n: int| 0 <= n < v@.len() ==> (#[trigger] v@[n]) < 64,
        v@ == moves_list(board@, src as int),
{
    let v = match board[src] {
        None => Vec::new(),
        Some(piece) => {
            match piece.title() {
                PieceType::Pawn => gen_pawn_moves(board, src, piece),
                PieceType::Rook | PieceType::Bishop | PieceType::Queen => gen_slider_moves(
                    board,
                    src,
                    piece,
                ),
                PieceType::King | PieceType::Knight => gen_step_moves(board, src, piece),
            }
        },
    };
    proof {
        assert forall|n: int| 0 <= n < v@.len() implies (#[trigger] v@[n]) < 64 by {
            assert(legal_dest(board@, src as int, v@[n] as int));
        }
    }
    v
}

/// The legal destinations of the piece on the given square, in standard
/// notation and generation order, or `None` when the notation is malformed,
/// the square is empty, or its piece has no legal move.
pub fn calculate_possible_moves(board: &Vec<Option<Piece>>, position: String) -> (r: Option<
    Vec<String>,
>)
    requires
        wf_board(board@),
    ensures
        r is None ==> !valid_notation(position@) || (forall|d: int|
            0 <= d < 64 ==> !legal_dest(board@, square_of(position@), d)),
        r matches Some(v) ==> {
            &&& valid_notation(position@)
            &&& v@.len() > 0
            &&& forall|n: int|
                0 <= n < v@.len() ==> valid_notation(#[trigger] v@[n]@) && legal_dest(
                    board@,
                    square_of(position@),
                    square_of(v@[n]@),
                )
            &&& forall|d: int|
                0 <= d < 64 && #[trigger] legal_dest(board@, square_of(position@), d)
                    ==> exists|n: int| 0 <= n < v@.len() && v@[n]@ == notation_of(d)
            &&& v@.len() == moves_list(board@, square_of(position@)).len()
            &&& forall|n: int|
                0 <= n < v@.len() ==> (#[trigger] v@[n])@ == notation_of(
                    moves_list(board@, square_of(position@))[n] as int,
                )
        },
{
    let src = match parse_coordinate(&position) {
        Some(src) => src,
        None => { return None; },
    };
    let squares = moves_for_square(board, src);
    if squares.len() == 0 {
        proof {
            assert forall|d: int| 0 <= d < 64 implies !legal_dest(board@, src as int, d) by {
                if legal_dest(board@, src as int, d) {
                    assert(contains_sq(squares@, d as u8));
                }
            }
        }
        return None;
    }
    let mut out: Vec<String> = Vec::new();
    let mut n: usize = 0;
    while n < squares.len()
        invariant
            wf_board(board@),
            src < 64,
            n <= squares@.len(),
            out@.len() == n,
            sound_dests(board@, src as int, squares@),
            forall|m: int| 0 <= m < squares@.len() ==> (#[trigger] squares@[m]) < 64,
            forall|m: int|
                0 <= m < n ==> (#[trigger] out@[m])@ == notation_of(squares@[m] as int),
        decreases squares@.len() - n,
    {
        let d = squares[n];
        let notation = as_standard_notation(&(d as usize));
        out.push(notation);
        n = n + 1;
    }
    proof {
        assert forall|m: int| 0 <= m < out@.len() implies valid_notation(#[trigger] out@[m]@)
            && legal_dest(board@, src as int, square_of(out@[m]@)) by {
            lemma_square_round_trip(squares@[m] as int);
            assert(legal_dest(board@, src as int, squares@[m] as int));
        }
        assert forall|d: int| 0 <= d < 64 && #[trigger] legal_dest(board@, src as int, d)
            implies exists|m: int| 0 <= m < out@.len() && out@[m]@ == notation_of(d) by {
            assert(contains_sq(squares@, d as u8));
            let m = choose|m: int| 0 <= m < squares@.len() && squares@[m] == d as u8;
            assert(out@[m]@ == notation_of(d));
        }
    }
    Some(out)
}

/// A correct legal-move table for a board: 64 entries, entry `s` holding
/// exactly the legal destinations of the piece on square `s`.
pub open spec fn table_ok(b: Seq<Option<Piece>>, t: Seq<Vec<u8>>) -> bool {
    &&& t.len() == 64
    &&& forall|s: int| 0 <= s < 64 ==> sound_dests(b, s, (#[trigger] t[s])@)
    &&& forall|s: int, d: int|
        0 <= s < 64 && 0 <= d < 64 && #[trigger] legal_dest(b, s, d) ==> contains_sq(
            t[s]@,
            d as u8,
        )
    &&& forall|s: int, n: int|
        0 <= s < 64 && 0 <= n < t[s]@.len() ==> (#[trigger] t[s]@[n]) < 64
    &&& forall|s: int| 0 <= s < 64 ==> (#[trigger] t[s])@ == moves_list(b, s)
}

/// The legal-move table of a whole board: entry `s` lists the legal
/// destinations of the piece on square `s`.
pub fn calculate_all_possible_moves(board: &Vec<Option<Piece>>) -> (t: Vec<Vec<u8>>)
    requires
        wf_board(board@),
    ensures
        table_ok(board@, t@),
{
    let mut table: Vec<Vec<u8>> = Vec::new();
    let mut s: usize = 0;
    while s < 64
        invariant
            wf_board(board@),
            s <= 64,
            table@.len() == s,
            forall|s2: int|
                0 <= s2 < s ==> sound_dests(board@, s2, (#[trigger] table@[s2])@),
            forall|s2: int, d: int|
                0 <= s2 < s && 0 <= d < 64 && #[trigger] legal_dest(board@, s2, d) ==> contains_sq(
                    table@[s2]@,
                    d as u8,
                ),
            forall|s2: int, n: int|
                0 <= s2 < s && 0 <= n < table@[s2]@.len() ==> (#[trigger] table@[s2]@[n]) < 64,
            forall|s2: int| 0 <= s2 < s ==> (#[trigger] table@[s2])@ == moves_list(board@, s2),
        decreases 64 - s,
    {
        let moves = moves_for_square(board, s);
        table.push(moves);
        s = s + 1;
    }
    table
}

/// Self-check prevention: a legal move never leaves the mover's own side in
/// check on the resulting board.
pub proof fn lemma_self_check_prevention(b: Seq<Option<Piece>>, src: int, dest: int)
    requires
        legal_dest(b, src, dest),
    ensures
        b[src] is Some,
        !in_check(spec_apply_move(b, src, dest), b[src]->0.color),
{
}

/// Double-step forfeiture: a pawn that has ever moved has no legal
/// destination two ranks ahead, so once relocated it can never again advance
/// two squares in one move.
pub proof fn lemma_double_step_forfeited(b: Seq<Option<Piece>>, src: int)
    requires
        0 <= src < 64,
        b[src] matches Some(p) && p.title == PieceType::Pawn && p.has_moved,
    ensures
        forall|dest: int|
            #[trigger] legal_dest(b, src, dest) ==> rank_of(dest) != rank_of(src) + 2 * b[
                src
            ]->0.color.spec_forward(),
{
    let p = b[src]->0;
    let f = file_of(src);
    let r = rank_of(src);
    let fw = p.color.spec_forward();
    assert forall|dest: int| #[trigger] legal_dest(b, src, dest) implies rank_of(dest) != r + 2
        * fw by {
        assert(pawn_dest(b, src, p, dest));
        if dest == square_at(f, r + fw) && on_board(f, r + fw) {
            assert(rank_of(dest) == r + fw);
        } else if dest == square_at(f - 1, r + fw) && on_board(f - 1, r + fw) {
            assert(rank_of(dest) == r + fw);
        } else if dest == square_at(f + 1, r + fw) && on_board(f + 1, r + fw) {
            assert(rank_of(dest) == r + fw);
        }
    }
}

/// Diagonal pawn capture: a pawn with an enemy piece one step diagonally
/// ahead may capture it, provided the capture does not expose its own king.
pub proof fn lemma_pawn_diagonal_capture(b: Seq<Option<Piece>>, src: int, side: int)
    requires
        0 <= src < 64,
        b[src] matches Some(p) && p.title == PieceType::Pawn,
        side == -1 || side == 1,
        on_board(file_of(src) + side, rank_of(src) + b[src]->0.color.spec_forward()),
        b[square_at(file_of(src) + side, rank_of(src) + b[src]->0.color.spec_forward())] matches Some(
            q,
        ) && q.color != b[src]->0.color,
        !in_check(
            spec_apply_move(
                b,
                src,
                square_at(file_of(src) + side, rank_of(src) + b[src]->0.color.spec_forward()),
            ),
            b[src]->0.color,
        ),
    ensures
        legal_dest(
            b,
            src,
            square_at(file_of(src) + side, rank_of(src) + b[src]->0.color.spec_forward()),
        ),
{
    let p = b[src]->0;
    let dest = square_at(file_of(src) + side, rank_of(src) + p.color.spec_forward());
    assert(pawn_dest(b, src, p, dest));
}

} // verus!
