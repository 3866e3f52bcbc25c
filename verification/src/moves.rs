//! The move generator: for a selected square, every destination the
//! piece standing there may legally move to, castling included.

use vstd::prelude::*;

use crate::attack::{
    attacked, diag_line, king_step, knight_step, ortho_line, pawn_forward, strictly_between,
};
use crate::board::{grid_at, in_bounds, Board, BoardModel};
use crate::legality::legal_move_spec;
use crate::piece::{Color, Piece, PieceKind};

verus! {

/// The row a color's pieces start on: White's back rank is row 7,
/// Black's is row 0.
pub open spec fn home_row(col: Color) -> int {
    match col {
        Color::White => 7,
        Color::Black => 0,
    }
}

/// The row a color's pawns start on.
pub open spec fn pawn_start_row(col: Color) -> int {
    match col {
        Color::White => 6,
        Color::Black => 1,
    }
}

/// A pawn of color `col` on `(sc, sr)` may step to `(tc, tr)`: one
/// square forward onto an empty square, two squares forward from its
/// starting row across empty squares, or one square diagonally forward
/// onto an opposing piece.
pub open spec fn pawn_dest(m: BoardModel, col: Color, sc: int, sr: int, tc: int, tr: int) -> bool {
    let d = pawn_forward(col);
    ||| (tc == sc && tr == sr + d && m.at(sc, sr + d) == Piece::Empty)
    ||| (tc == sc && sr == pawn_start_row(col) && tr == sr + 2 * d && m.at(sc, sr + d)
        == Piece::Empty && m.at(sc, sr + 2 * d) == Piece::Empty)
    ||| ((tc == sc + 1 || tc == sc - 1) && tr == sr + d && m.at(tc, tr).spec_has_color(
        col.spec_opposite(),
    ))
}

/// The movement pattern and occupancy rule of the piece on `(sc, sr)`
/// admit `(tc, tr)`, king safety aside and castling aside.
pub open spec fn pseudo_dest(m: BoardModel, sc: int, sr: int, tc: int, tr: int) -> bool {
    match m.at(sc, sr) {
        Piece::Empty => false,
        Piece::Occupied(col, k) => match k {
            PieceKind::King => king_step(sc, sr, tc, tr),
            PieceKind::Queen => ortho_line(m.grid, sc, sr, tc, tr) || diag_line(
                m.grid,
                sc,
                sr,
                tc,
                tr,
            ),
            PieceKind::Rook => ortho_line(m.grid, sc, sr, tc, tr),
            PieceKind::Bishop => diag_line(m.grid, sc, sr, tc, tr),
            PieceKind::Knight => knight_step(sc, sr, tc, tr),
            PieceKind::Pawn => pawn_dest(m, col, sc, sr, tc, tr),
        },
    }
}

/// `(tc, tr)` is a castling destination for the king on `(sc, sr)`: a
/// king on its original square whose flag is clear, the corresponding
/// rook's flag clear, every square between king and rook empty, and
/// the king neither in check now nor passing through nor landing on an
/// attacked square.
pub open spec fn castle_dest(m: BoardModel, sc: int, sr: int, tc: int, tr: int) -> bool {
    match m.at(sc, sr) {
        Piece::Occupied(col, PieceKind::King) => {
            &&& sc == 4
            &&& sr == home_row(col)
            &&& tr == sr
            &&& !m.king_moved(col)
            &&& !attacked(m.grid, 4, sr, col.spec_opposite())
            &&& {
                ||| (tc == 6 && !m.kingside_rook_moved(col) && m.at(5, sr) == Piece::Empty && m.at(
                    6,
                    sr,
                ) == Piece::Empty && legal_move_spec(m, 4, sr, 5, sr) && legal_move_spec(
                    m,
                    4,
                    sr,
                    6,
                    sr,
                ))
                ||| (tc == 2 && !m.queenside_rook_moved(col) && m.at(1, sr) == Piece::Empty
                    && m.at(2, sr) == Piece::Empty && m.at(3, sr) == Piece::Empty
                    && legal_move_spec(m, 4, sr, 3, sr) && legal_move_spec(m, 4, sr, 2, sr))
            }
        },
        _ => false,
    }
}

/// `(tc, tr)` belongs to the legal-move set of the piece on
/// `(sc, sr)`: an in-bounds destination that either fits the piece's
/// movement pattern and passes the legality filter, or is a castling
/// destination.
pub open spec fn move_allowed(m: BoardModel, sc: int, sr: int, tc: int, tr: int) -> bool {
    &&& in_bounds(sc, sr)
    &&& in_bounds(tc, tr)
    &&& {
        ||| (pseudo_dest(m, sc, sr, tc, tr) && legal_move_spec(m, sc, sr, tc, tr))
        ||| castle_dest(m, sc, sr, tc, tr)
    }
}

/// Some piece of color `col` has at least one legal move.
pub open spec fn color_has_move(m: BoardModel, col: Color) -> bool {
    exists|sc: int, sr: int, tc: int, tr: int|
        in_bounds(sc, sr) && m.at(sc, sr).spec_has_color(col) && #[trigger] move_allowed(
            m,
            sc,
            sr,
            tc,
            tr,
        )
}

/// Membership in a pushed sequence: the old members plus the new one.
proof fn lemma_push_contains<T>(s: Seq<T>, x: T, y: T)
    ensures
        s.push(x).contains(y) <==> (s.contains(y) || y == x),
{
    if s.contains(y) {
        let i = choose|i: int| 0 <= i < s.len() && s[i] == y;
        assert(s.push(x)[i] == y);
    }
    if y == x {
        assert(s.push(x)[s.len() as int] == y);
    }
    if s.push(x).contains(y) {
        let i = choose|i: int| 0 <= i < s.push(x).len() && s.push(x)[i] == y;
        if i < s.len() {
            assert(s[i] == y);
        }
    }
}

/// Appending an element not yet present keeps a sequence free of
/// duplicates.
proof fn lemma_push_no_dup<T>(s: Seq<T>, x: T)
    requires
        s.no_duplicates(),
        !s.contains(x),
    ensures
        s.push(x).no_duplicates(),
{
    assert forall|i: int, j: int|
        0 <= i < s.push(x).len() && 0 <= j < s.push(x).len() && i != j implies s.push(x)[i]
        != s.push(x)[j] by {
        if i < s.len() && j < s.len() {
            assert(s.push(x)[i] == s[i] && s.push(x)[j] == s[j]);
        } else if i < s.len() {
            assert(s.push(x)[j] == x);
            if s.push(x)[i] == x {
                assert(s[i] == x);
            }
        } else {
            assert(s.push(x)[i] == x);
            if s.push(x)[j] == x {
                assert(s[j] == x);
            }
        }
    }
}

impl Board {
    /// Probes the single destination one (dc, dr) step away and, when
    /// it is on the board and legal, appends it to `v`.
    fn try_step(&mut self, v: &mut Vec<(usize, usize)>, sc: usize, sr: usize, dc: i32, dr: i32)
        requires
            old(self)@.wf(),
            sc < 8,
            sr < 8,
            -2 <= dc <= 2,
            -2 <= dr <= 2,
        ensures
            final(self)@ == old(self)@,
            forall|p: (usize, usize)| #[trigger]
                final(v)@.contains(p) <==> old(v)@.contains(p) || (in_bounds(
                    sc as int + dc as int,
                    sr as int + dr as int,
                ) && legal_move_spec(
                    old(self)@,
                    sc as int,
                    sr as int,
                    sc as int + dc as int,
                    sr as int + dr as int,
                ) && p == (((sc as int + dc as int) as usize, (sr as int + dr as int) as usize))),
            old(v)@.no_duplicates() && (in_bounds(sc as int + dc as int, sr as int + dr as int)
                ==> !old(v)@.contains(
                (((sc as int + dc as int) as usize, (sr as int + dr as int) as usize)),
            )) ==> final(v)@.no_duplicates(),
    {
        let nc_i: i32 = sc as i32 + dc;
        let nr_i: i32 = sr as i32 + dr;
        if nc_i >= 0 && nc_i < 8 && nr_i >= 0 && nr_i < 8 {
            let nc: usize = nc_i as usize;
            let nr: usize = nr_i as usize;
            if self.is_legal_move(sc, sr, nc, nr) {
                let ghost pre = v@;
                v.push((nc, nr));
                proof {
                    assert forall|p: (usize, usize)| #[trigger]
                        v@.contains(p) <==> pre.contains(p) || p == ((nc, nr)) by {
                        lemma_push_contains(pre, (nc, nr), p);
                    }
                    if pre.no_duplicates() && !pre.contains((nc, nr)) {
                        lemma_push_no_dup(pre, (nc, nr));
                    }
                }
            }
        }
    }

    /// All legal destinations of the knight on `(sc, sr)`.
    #[verifier::rlimit(30)]
    #[verifier::spinoff_prover]
    fn knight_dests(&mut self, sc: usize, sr: usize) -> (v: Vec<(usize, usize)>)
        requires
            old(self)@.wf(),
            sc < 8,
            sr < 8,
            old(self)@.at(sc as int, sr as int).spec_kind() == Some(PieceKind::Knight),
        ensures
            final(self)@ == old(self)@,
            forall|p: (usize, usize)| #[trigger]
                v@.contains(p) <==> move_allowed(
                    old(self)@,
                    sc as int,
                    sr as int,
                    p.0 as int,
                    p.1 as int,
                ),
            v@.no_duplicates(),
    {
        let ghost m = self@;
        let mut v: Vec<(usize, usize)> = Vec::new();
        self.try_step(&mut v, sc, sr, 2, 1);
        let ghost s1 = v@;
        self.try_step(&mut v, sc, sr, -2, 1);
        let ghost s2 = v@;
        self.try_step(&mut v, sc, sr, 2, -1);
        let ghost s3 = v@;
        self.try_step(&mut v, sc, sr, -2, -1);
        let ghost s4 = v@;
        self.try_step(&mut v, sc, sr, 1, 2);
        let ghost s5 = v@;
        self.try_step(&mut v, sc, sr, -1, 2);
        let ghost s6 = v@;
        self.try_step(&mut v, sc, sr, 1, -2);
        let ghost s7 = v@;
        self.try_step(&mut v, sc, sr, -1, -2);
        proof {
            let sci = sc as int;
            let sri = sr as int;
            assert forall|p: (usize, usize)| #[trigger]
                v@.contains(p) <==> move_allowed(m, sci, sri, p.0 as int, p.1 as int) by {
                let tc = p.0 as int;
                let tr = p.1 as int;
                if move_allowed(m, sci, sri, tc, tr) {
                    assert(!castle_dest(m, sci, sri, tc, tr));
                    assert(knight_step(sci, sri, tc, tr));
                    assert(v@.contains(p));
                }
            }
            // Each probed square differs from all earlier ones, so
            // the list stays free of duplicates.
            assert(s1.no_duplicates());
            assert(s2.no_duplicates());
            assert(s3.no_duplicates());
            assert(s4.no_duplicates());
            assert(s5.no_duplicates());
            assert(s6.no_duplicates());
            if in_bounds(sci + 1, sri - 2) {
                assert(!s6.contains((((sci + 1) as usize, (sri - 2) as usize))));
            }
            assert(s7.no_duplicates());
            if in_bounds(sci - 1, sri - 2) {
                assert(!s7.contains((((sci - 1) as usize, (sri - 2) as usize))));
            }
            assert(v@.no_duplicates());
        }
        v
    }

    /// Appends the castling destinations available to the king of
    /// color `col` on `(sc, sr)`, if any.
    fn add_castle_dests(&mut self, v: &mut Vec<(usize, usize)>, sc: usize, sr: usize, col: Color)
        requires
            old(self)@.wf(),
            sc < 8,
            sr < 8,
            old(self)@.at(sc as int, sr as int) == Piece::Occupied(col, PieceKind::King),
        ensures
            final(self)@ == old(self)@,
            forall|p: (usize, usize)| #[trigger]
                final(v)@.contains(p) <==> old(v)@.contains(p) || castle_dest(
                    old(self)@,
                    sc as int,
                    sr as int,
                    p.0 as int,
                    p.1 as int,
                ),
            old(v)@.no_duplicates() && (forall|p: (usize, usize)|
                old(v)@.contains(p) ==> !castle_dest(
                    old(self)@,
                    sc as int,
                    sr as int,
                    p.0 as int,
                    p.1 as int,
                )) ==> final(v)@.no_duplicates(),
    {
        let ghost m = self@;
        let ghost v0 = v@;
        let hr: usize = match col {
            Color::White => 7,
            Color::Black => 0,
        };
        proof {
            assert(hr as int == home_row(col));
        }
        if sc == 4 && sr == hr && !self.king_has_moved(col) {
            if !self.is_square_attacked(sc, sr, col.opposite()) {
                if !self.kingside_rook_has_moved(col) && self.piece_at(5, sr) == Piece::Empty
                    && self.piece_at(6, sr) == Piece::Empty {
                    let ok_land = self.is_legal_move(sc, sr, 6, sr);
                    let ok_pass = self.is_legal_move(sc, sr, 5, sr);
                    if ok_land && ok_pass {
                        let ghost pre = v@;
                        v.push((6, sr));
                        proof {
                            assert forall|p: (usize, usize)| #[trigger]
                                v@.contains(p) <==> pre.contains(p) || p == ((6usize, sr)) by {
                                lemma_push_contains(pre, (6usize, sr), p);
                            }
                            assert(castle_dest(m, sc as int, sr as int, 6, sr as int));
                            if v0.no_duplicates() && (forall|p: (usize, usize)|
                                v0.contains(p) ==> !castle_dest(
                                    m,
                                    sc as int,
                                    sr as int,
                                    p.0 as int,
                                    p.1 as int,
                                )) {
                                assert(!pre.contains((6usize, sr)));
                                lemma_push_no_dup(pre, (6usize, sr));
                            }
                        }
                    }
                }
                if !self.queenside_rook_has_moved(col) && self.piece_at(1, sr) == Piece::Empty
                    && self.piece_at(2, sr) == Piece::Empty && self.piece_at(3, sr)
                    == Piece::Empty {
                    let ok_pass = self.is_legal_move(sc, sr, 3, sr);
                    let ok_land = self.is_legal_move(sc, sr, 2, sr);
                    if ok_pass && ok_land {
                        let ghost pre = v@;
                        v.push((2, sr));
                        proof {
                            assert forall|p: (usize, usize)| #[trigger]
                                v@.contains(p) <==> pre.contains(p) || p == ((2usize, sr)) by {
                                lemma_push_contains(pre, (2usize, sr), p);
                            }
                            assert(castle_dest(m, sc as int, sr as int, 2, sr as int));
                            if v0.no_duplicates() && (forall|p: (usize, usize)|
                                v0.contains(p) ==> !castle_dest(
                                    m,
                                    sc as int,
                                    sr as int,
                                    p.0 as int,
                                    p.1 as int,
                                )) {
                                assert(!pre.contains((2usize, sr)));
                                lemma_push_no_dup(pre, (2usize, sr));
                            }
                        }
                    }
                }
            }
        }
        proof {
            let sci = sc as int;
            let sri = sr as int;
            assert forall|p: (usize, usize)| #[trigger]
                v@.contains(p) <==> old(v)@.contains(p) || castle_dest(
                    m,
                    sci,
                    sri,
                    p.0 as int,
                    p.1 as int,
                ) by {
                let tc = p.0 as int;
                let tr = p.1 as int;
                if castle_dest(m, sci, sri, tc, tr) {
                    assert(v@.contains(p));
                }
            }
        }
    }

    /// Walks the rank leftward from `(sc, sr)`, pushing each legal
    /// destination, and stops at the first occupied square
    /// (inclusive: a capture there is still offered).
    #[verifier::loop_isolation(false)]
    fn slide_left(&mut self, v: &mut Vec<(usize, usize)>, sc: usize, sr: usize)
        requires
            old(self)@.wf(),
            sc < 8,
            sr < 8,
        ensures
            final(self)@ == old(self)@,
            forall|p: (usize, usize)| #[trigger]
                final(v)@.contains(p) <==> old(v)@.contains(p) || (p.1 == sr && p.0 < sc
                    && ortho_line(old(self)@.grid, sc as int, sr as int, p.0 as int, p.1 as int)
                    && legal_move_spec(old(self)@, sc as int, sr as int, p.0 as int, p.1 as int)),
            old(v)@.no_duplicates() && (forall|p: (usize, usize)|
                old(v)@.contains(p) ==> !(p.1 == sr && p.0 < sc && ortho_line(
                    old(self)@.grid,
                    sc as int,
                    sr as int,
                    p.0 as int,
                    p.1 as int,
                ) && legal_move_spec(old(self)@, sc as int, sr as int, p.0 as int, p.1 as int)))
                ==> final(v)@.no_duplicates(),
    {
        let ghost m = self@;
        let ghost v0 = v@;
        let mut c: usize = sc;
        let mut blocked: bool = false;
        while c > 0 && !blocked
            invariant
                c <= sc,
                self@ == m,
                !blocked ==> forall|x: int|
                    c <= x < sc ==> #[trigger] grid_at(m.grid, x, sr as int) == Piece::Empty,
                blocked ==> c < sc && grid_at(m.grid, c as int, sr as int) != Piece::Empty
                    && forall|x: int|
                    c < x < sc ==> #[trigger] grid_at(m.grid, x, sr as int) == Piece::Empty,
                forall|p: (usize, usize)| #[trigger]
                    v@.contains(p) <==> v0.contains(p) || (p.1 == sr && c <= p.0 < sc
                        && ortho_line(m.grid, sc as int, sr as int, p.0 as int, p.1 as int)
                        && legal_move_spec(m, sc as int, sr as int, p.0 as int, p.1 as int)),
                v0.no_duplicates() && (forall|p: (usize, usize)|
                    v0.contains(p) ==> !(p.1 == sr && p.0 < sc && ortho_line(
                        m.grid,
                        sc as int,
                        sr as int,
                        p.0 as int,
                        p.1 as int,
                    ) && legal_move_spec(m, sc as int, sr as int, p.0 as int, p.1 as int)))
                    ==> v@.no_duplicates(),
            decreases c,
        {
            c = c - 1;
            proof {
                assert(ortho_line(m.grid, sc as int, sr as int, c as int, sr as int));
            }
            if self.is_legal_move(sc, sr, c, sr) {
                let ghost pre = v@;
                v.push((c, sr));
                proof {
                    assert forall|p: (usize, usize)| #[trigger]
                        v@.contains(p) <==> pre.contains(p) || p == ((c, sr)) by {
                        lemma_push_contains(pre, (c, sr), p);
                    }
                    if v0.no_duplicates() && (forall|p: (usize, usize)|
                        v0.contains(p) ==> !(p.1 == sr && p.0 < sc && ortho_line(
                            m.grid,
                            sc as int,
                            sr as int,
                            p.0 as int,
                            p.1 as int,
                        ) && legal_move_spec(m, sc as int, sr as int, p.0 as int, p.1 as int))) {
                        assert(!pre.contains((c, sr)));
                        lemma_push_no_dup(pre, (c, sr));
                    }
                }
            }
            if self.piece_at(c, sr) != Piece::Empty {
                blocked = true;
            }
        }
        proof {
            assert forall|p: (usize, usize)| #[trigger]
                v@.contains(p) <==> v0.contains(p) || (p.1 == sr && p.0 < sc && ortho_line(
                    m.grid,
                    sc as int,
                    sr as int,
                    p.0 as int,
                    p.1 as int,
                ) && legal_move_spec(m, sc as int, sr as int, p.0 as int, p.1 as int)) by {
                if !v@.contains(p) && p.1 == sr && p.0 < sc && ortho_line(
                    m.grid,
                    sc as int,
                    sr as int,
                    p.0 as int,
                    p.1 as int,
                ) && legal_move_spec(m, sc as int, sr as int, p.0 as int, p.1 as int) {
                    assert(p.0 < c && blocked);
                    assert(strictly_between(p.0 as int, c as int, sc as int));
                    assert(grid_at(m.grid, c as int, sr as int) == Piece::Empty);
                }
            }
        }
    }

    /// Walks the rank rightward from `(sc, sr)`; same stop rule.
    #[verifier::loop_isolation(false)]
    fn slide_right(&mut self, v: &mut Vec<(usize, usize)>, sc: usize, sr: usize)
        requires
            old(self)@.wf(),
            sc < 8,
            sr < 8,
        ensures
            final(self)@ == old(self)@,
            forall|p: (usize, usize)| #[trigger]
                final(v)@.contains(p) <==> old(v)@.contains(p) || (p.1 == sr && p.0 > sc && p.0 < 8
                    && ortho_line(old(self)@.grid, sc as int, sr as int, p.0 as int, p.1 as int)
                    && legal_move_spec(old(self)@, sc as int, sr as int, p.0 as int, p.1 as int)),
            old(v)@.no_duplicates() && (forall|p: (usize, usize)|
                old(v)@.contains(p) ==> !(p.1 == sr && p.0 > sc && p.0 < 8 && ortho_line(
                    old(self)@.grid,
                    sc as int,
                    sr as int,
                    p.0 as int,
                    p.1 as int,
                ) && legal_move_spec(old(self)@, sc as int, sr as int, p.0 as int, p.1 as int)))
                ==> final(v)@.no_duplicates(),
    {
        let ghost m = self@;
        let ghost v0 = v@;
        let mut c: usize = sc;
        let mut blocked: bool = false;
        while c < 7 && !blocked
            invariant
                sc <= c < 8,
                self@ == m,
                !blocked ==> forall|x: int|
                    sc < x <= c ==> #[trigger] grid_at(m.grid, x, sr as int) == Piece::Empty,
                blocked ==> c > sc && grid_at(m.grid, c as int, sr as int) != Piece::Empty
                    && forall|x: int|
                    sc < x < c ==> #[trigger] grid_at(m.grid, x, sr as int) == Piece::Empty,
                forall|p: (usize, usize)| #[trigger]
                    v@.contains(p) <==> v0.contains(p) || (p.1 == sr && sc < p.0 <= c
                        && ortho_line(m.grid, sc as int, sr as int, p.0 as int, p.1 as int)
                        && legal_move_spec(m, sc as int, sr as int, p.0 as int, p.1 as int)),
                v0.no_duplicates() && (forall|p: (usize, usize)|
                    v0.contains(p) ==> !(p.1 == sr && p.0 > sc && p.0 < 8 && ortho_line(
                        m.grid,
                        sc as int,
                        sr as int,
                        p.0 as int,
                        p.1 as int,
                    ) && legal_move_spec(m, sc as int, sr as int, p.0 as int, p.1 as int)))
                    ==> v@.no_duplicates(),
            decreases 7 - c,
        {
            c = c + 1;
            proof {
                assert(ortho_line(m.grid, sc as int, sr as int, c as int, sr as int));
            }
            if self.is_legal_move(sc, sr, c, sr) {
                let ghost pre = v@;
                v.push((c, sr));
                proof {
                    assert forall|p: (usize, usize)| #[trigger]
                        v@.contains(p) <==> pre.contains(p) || p == ((c, sr)) by {
                        lemma_push_contains(pre, (c, sr), p);
                    }
                    if v0.no_duplicates() && (forall|p: (usize, usize)|
                        v0.contains(p) ==> !(p.1 == sr && p.0 > sc && p.0 < 8 && ortho_line(
                            m.grid,
                            sc as int,
                            sr as int,
                            p.0 as int,
                            p.1 as int,
                        ) && legal_move_spec(m, sc as int, sr as int, p.0 as int, p.1 as int))) {
                        assert(!pre.contains((c, sr)));
                        lemma_push_no_dup(pre, (c, sr));
                    }
                }
            }
            if self.piece_at(c, sr) != Piece::Empty {
                blocked = true;
            }
        }
        proof {
            assert forall|p: (usize, usize)| #[trigger]
                v@.contains(p) <==> v0.contains(p) || (p.1 == sr && p.0 > sc && p.0 < 8
                    && ortho_line(m.grid, sc as int, sr as int, p.0 as int, p.1 as int)
                    && legal_move_spec(m, sc as int, sr as int, p.0 as int, p.1 as int)) by {
                if !v@.contains(p) && p.1 == sr && p.0 > sc && p.0 < 8 && ortho_line(
                    m.grid,
                    sc as int,
                    sr as int,
                    p.0 as int,
                    p.1 as int,
                ) && legal_move_spec(m, sc as int, sr as int, p.0 as int, p.1 as int) {
                    assert(p.0 > c && blocked);
                    assert(strictly_between(sc as int, c as int, p.0 as int));
                    assert(grid_at(m.grid, c as int, sr as int) == Piece::Empty);
                }
            }
        }
    }

    /// Walks the file upward (decreasing row) from `(sc, sr)`.
    #[verifier::loop_isolation(false)]
    fn slide_up(&mut self, v: &mut Vec<(usize, usize)>, sc: usize, sr: usize)
        requires
            old(self)@.wf(),
            sc < 8,
            sr < 8,
        ensures
            final(self)@ == old(self)@,
            forall|p: (usize, usize)| #[trigger]
                final(v)@.contains(p) <==> old(v)@.contains(p) || (p.0 == sc && p.1 < sr
                    && ortho_line(old(self)@.grid, sc as int, sr as int, p.0 as int, p.1 as int)
                    && legal_move_spec(old(self)@, sc as int, sr as int, p.0 as int, p.1 as int)),
            old(v)@.no_duplicates() && (forall|p: (usize, usize)|
                old(v)@.contains(p) ==> !(p.0 == sc && p.1 < sr && ortho_line(
                    old(self)@.grid,
                    sc as int,
                    sr as int,
                    p.0 as int,
                    p.1 as int,
                ) && legal_move_spec(old(self)@, sc as int, sr as int, p.0 as int, p.1 as int)))
                ==> final(v)@.no_duplicates(),
    {
        let ghost m = self@;
        let ghost v0 = v@;
        let mut r: usize = sr;
        let mut blocked: bool = false;
        while r > 0 && !blocked
            invariant
                r <= sr,
                self@ == m,
                !blocked ==> forall|y: int|
                    r <= y < sr ==> #[trigger] grid_at(m.grid, sc as int, y) == Piece::Empty,
                blocked ==> r < sr && grid_at(m.grid, sc as int, r as int) != Piece::Empty
                    && forall|y: int|
                    r < y < sr ==> #[trigger] grid_at(m.grid, sc as int, y) == Piece::Empty,
                forall|p: (usize, usize)| #[trigger]
                    v@.contains(p) <==> v0.contains(p) || (p.0 == sc && r <= p.1 < sr
                        && ortho_line(m.grid, sc as int, sr as int, p.0 as int, p.1 as int)
                        && legal_move_spec(m, sc as int, sr as int, p.0 as int, p.1 as int)),
                v0.no_duplicates() && (forall|p: (usize, usize)|
                    v0.contains(p) ==> !(p.0 == sc && p.1 < sr && ortho_line(
                        m.grid,
                        sc as int,
                        sr as int,
                        p.0 as int,
                        p.1 as int,
                    ) && legal_move_spec(m, sc as int, sr as int, p.0 as int, p.1 as int)))
                    ==> v@.no_duplicates(),
            decreases r,
        {
            r = r - 1;
            proof {
                assert(ortho_line(m.grid, sc as int, sr as int, sc as int, r as int));
            }
            if self.is_legal_move(sc, sr, sc, r) {
                let ghost pre = v@;
                v.push((sc, r));
                proof {
                    assert forall|p: (usize, usize)| #[trigger]
                        v@.contains(p) <==> pre.contains(p) || p == ((sc, r)) by {
                        lemma_push_contains(pre, (sc, r), p);
                    }
                    if v0.no_duplicates() && (forall|p: (usize, usize)|
                        v0.contains(p) ==> !(p.0 == sc && p.1 < sr && ortho_line(
                            m.grid,
                            sc as int,
                            sr as int,
                            p.0 as int,
                            p.1 as int,
                        ) && legal_move_spec(m, sc as int, sr as int, p.0 as int, p.1 as int))) {
                        assert(!pre.contains((sc, r)));
                        lemma_push_no_dup(pre, (sc, r));
                    }
                }
            }
            if self.piece_at(sc, r) != Piece::Empty {
                blocked = true;
            }
        }
        proof {
            assert forall|p: (usize, usize)| #[trigger]
                v@.contains(p) <==> v0.contains(p) || (p.0 == sc && p.1 < sr && ortho_line(
                    m.grid,
                    sc as int,
                    sr as int,
                    p.0 as int,
                    p.1 as int,
                ) && legal_move_spec(m, sc as int, sr as int, p.0 as int, p.1 as int)) by {
                if !v@.contains(p) && p.0 == sc && p.1 < sr && ortho_line(
                    m.grid,
                    sc as int,
                    sr as int,
                    p.0 as int,
                    p.1 as int,
                ) && legal_move_spec(m, sc as int, sr as int, p.0 as int, p.1 as int) {
                    assert(p.1 < r && blocked);
                    assert(strictly_between(p.1 as int, r as int, sr as int));
                    assert(grid_at(m.grid, sc as int, r as int) == Piece::Empty);
                }
            }
        }
    }

    /// Walks the file downward (increasing row) from `(sc, sr)`.
    #[verifier::loop_isolation(false)]
    fn slide_down(&mut self, v: &mut Vec<(usize, usize)>, sc: usize, sr: usize)
        requires
            old(self)@.wf(),
            sc < 8,
            sr < 8,
        ensures
            final(self)@ == old(self)@,
            forall|p: (usize, usize)| #[trigger]
                final(v)@.contains(p) <==> old(v)@.contains(p) || (p.0 == sc && p.1 > sr && p.1 < 8
                    && ortho_line(old(self)@.grid, sc as int, sr as int, p.0 as int, p.1 as int)
                    && legal_move_spec(old(self)@, sc as int, sr as int, p.0 as int, p.1 as int)),
            old(v)@.no_duplicates() && (forall|p: (usize, usize)|
                old(v)@.contains(p) ==> !(p.0 == sc && p.1 > sr && p.1 < 8 && ortho_line(
                    old(self)@.grid,
                    sc as int,
                    sr as int,
                    p.0 as int,
                    p.1 as int,
                ) && legal_move_spec(old(self)@, sc as int, sr as int, p.0 as int, p.1 as int)))
                ==> final(v)@.no_duplicates(),
    {
        let ghost m = self@;
        let ghost v0 = v@;
        let mut r: usize = sr;
        let mut blocked: bool = false;
        while r < 7 && !blocked
            invariant
                sr <= r < 8,
                self@ == m,
                !blocked ==> forall|y: int|
                    sr < y <= r ==> #[trigger] grid_at(m.grid, sc as int, y) == Piece::Empty,
                blocked ==> r > sr && grid_at(m.grid, sc as int, r as int) != Piece::Empty
                    && forall|y: int|
                    sr < y < r ==> #[trigger] grid_at(m.grid, sc as int, y) == Piece::Empty,
                forall|p: (usize, usize)| #[trigger]
                    v@.contains(p) <==> v0.contains(p) || (p.0 == sc && sr < p.1 <= r
                        && ortho_line(m.grid, sc as int, sr as int, p.0 as int, p.1 as int)
                        && legal_move_spec(m, sc as int, sr as int, p.0 as int, p.1 as int)),
                v0.no_duplicates() && (forall|p: (usize, usize)|
                    v0.contains(p) ==> !(p.0 == sc && p.1 > sr && p.1 < 8 && ortho_line(
                        m.grid,
                        sc as int,
                        sr as int,
                        p.0 as int,
                        p.1 as int,
                    ) && legal_move_spec(m, sc as int, sr as int, p.0 as int, p.1 as int)))
                    ==> v@.no_duplicates(),
            decreases 7 - r,
        {
            r = r + 1;
            proof {
                assert(ortho_line(m.grid, sc as int, sr as int, sc as int, r as int));
            }
            if self.is_legal_move(sc, sr, sc, r) {
                let ghost pre = v@;
                v.push((sc, r));
                proof {
                    assert forall|p: (usize, usize)| #[trigger]
                        v@.contains(p) <==> pre.contains(p) || p == ((sc, r)) by {
                        lemma_push_contains(pre, (sc, r), p);
                    }
                    if v0.no_duplicates() && (forall|p: (usize, usize)|
                        v0.contains(p) ==> !(p.0 == sc && p.1 > sr && p.1 < 8 && ortho_line(
                            m.grid,
                            sc as int,
                            sr as int,
                            p.0 as int,
                            p.1 as int,
                        ) && legal_move_spec(m, sc as int, sr as int, p.0 as int, p.1 as int))) {
                        assert(!pre.contains((sc, r)));
                        lemma_push_no_dup(pre, (sc, r));
                    }
                }
            }
            if self.piece_at(sc, r) != Piece::Empty {
                blocked = true;
            }
        }
        proof {
            assert forall|p: (usize, usize)| #[trigger]
                v@.contains(p) <==> v0.contains(p) || (p.0 == sc && p.1 > sr && p.1 < 8
                    && ortho_line(m.grid, sc as int, sr as int, p.0 as int, p.1 as int)
                    && legal_move_spec(m, sc as int, sr as int, p.0 as int, p.1 as int)) by {
                if !v@.contains(p) && p.0 == sc && p.1 > sr && p.1 < 8 && ortho_line(
                    m.grid,
                    sc as int,
                    sr as int,
                    p.0 as int,
                    p.1 as int,
                ) && legal_move_spec(m, sc as int, sr as int, p.0 as int, p.1 as int) {
                    assert(p.1 > r && blocked);
                    assert(strictly_between(sr as int, r as int, p.1 as int));
                    assert(grid_at(m.grid, sc as int, r as int) == Piece::Empty);
                }
            }
        }
    }

    /// All legal destinations of the rook on `(sc, sr)`.
    fn rook_dests(&mut self, sc: usize, sr: usize) -> (v: Vec<(usize, usize)>)
        requires
            old(self)@.wf(),
            sc < 8,
            sr < 8,
            old(self)@.at(sc as int, sr as int).spec_kind() == Some(PieceKind::Rook),
        ensures
            final(self)@ == old(self)@,
            forall|p: (usize, usize)| #[trigger]
                v@.contains(p) <==> move_allowed(
                    old(self)@,
                    sc as int,
                    sr as int,
                    p.0 as int,
                    p.1 as int,
                ),
            v@.no_duplicates(),
    {
        let ghost m = self@;
        let mut v: Vec<(usize, usize)> = Vec::new();
        self.slide_left(&mut v, sc, sr);
        let ghost s1 = v@;
        self.slide_right(&mut v, sc, sr);
        let ghost s2 = v@;
        self.slide_up(&mut v, sc, sr);
        let ghost s3 = v@;
        self.slide_down(&mut v, sc, sr);
        proof {
            // The four scans cover four disjoint quadrants of the
            // board, so the combined list stays duplicate-free.
            assert(s1.no_duplicates());
            assert(s2.no_duplicates());
            assert(s3.no_duplicates());
            assert(v@.no_duplicates());
        }
        proof {
            let sci = sc as int;
            let sri = sr as int;
            assert forall|p: (usize, usize)| #[trigger]
                v@.contains(p) <==> move_allowed(m, sci, sri, p.0 as int, p.1 as int) by {
                let tc = p.0 as int;
                let tr = p.1 as int;
                if move_allowed(m, sci, sri, tc, tr) {
                    assert(!castle_dest(m, sci, sri, tc, tr));
                    assert(ortho_line(m.grid, sci, sri, tc, tr));
                    assert(v@.contains(p));
                }
            }
        }
        v
    }

    /// Walks the diagonal toward decreasing column and row.
    #[verifier::loop_isolation(false)]
    fn slide_up_left(&mut self, v: &mut Vec<(usize, usize)>, sc: usize, sr: usize)
        requires
            old(self)@.wf(),
            sc < 8,
            sr < 8,
        ensures
            final(self)@ == old(self)@,
            forall|p: (usize, usize)| #[trigger]
                final(v)@.contains(p) <==> old(v)@.contains(p) || (p.0 < sc && p.1 as int - p.0
                    as int == sr as int - sc as int && diag_line(
                    old(self)@.grid,
                    sc as int,
                    sr as int,
                    p.0 as int,
                    p.1 as int,
                ) && legal_move_spec(old(self)@, sc as int, sr as int, p.0 as int, p.1 as int)),
            old(v)@.no_duplicates() && (forall|p: (usize, usize)|
                old(v)@.contains(p) ==> !(p.0 < sc && p.1 as int - p.0 as int == sr as int - sc
                    as int && diag_line(
                    old(self)@.grid,
                    sc as int,
                    sr as int,
                    p.0 as int,
                    p.1 as int,
                ) && legal_move_spec(old(self)@, sc as int, sr as int, p.0 as int, p.1 as int)))
                ==> final(v)@.no_duplicates(),
    {
        let ghost m = self@;
        let ghost v0 = v@;
        let mut c: usize = sc;
        let mut r: usize = sr;
        let mut blocked: bool = false;
        while c > 0 && r > 0 && !blocked
            invariant
                c <= sc,
                r <= sr,
                sc - c == sr - r,
                self@ == m,
                !blocked ==> forall|x: int, y: int|
                    c <= x < sc && y - x == sr as int - sc as int ==> #[trigger] grid_at(
                        m.grid,
                        x,
                        y,
                    ) == Piece::Empty,
                blocked ==> c < sc && grid_at(m.grid, c as int, r as int) != Piece::Empty
                    && forall|x: int, y: int|
                    c < x < sc && y - x == sr as int - sc as int ==> #[trigger] grid_at(m.grid, x, y)
                        == Piece::Empty,
                forall|p: (usize, usize)| #[trigger]
                    v@.contains(p) <==> v0.contains(p) || (c <= p.0 < sc && p.1 as int - p.0 as int
                        == sr as int - sc as int && diag_line(
                        m.grid,
                        sc as int,
                        sr as int,
                        p.0 as int,
                        p.1 as int,
                    ) && legal_move_spec(m, sc as int, sr as int, p.0 as int, p.1 as int)),
                v0.no_duplicates() && (forall|p: (usize, usize)|
                    v0.contains(p) ==> !(p.0 < sc && p.1 as int - p.0 as int == sr as int - sc
                        as int && diag_line(m.grid, sc as int, sr as int, p.0 as int, p.1 as int)
                        && legal_move_spec(m, sc as int, sr as int, p.0 as int, p.1 as int)))
                    ==> v@.no_duplicates(),
            decreases c,
        {
            c = c - 1;
            r = r - 1;
            proof {
                assert(diag_line(m.grid, sc as int, sr as int, c as int, r as int));
            }
            if self.is_legal_move(sc, sr, c, r) {
                let ghost pre = v@;
                v.push((c, r));
                proof {
                    assert forall|p: (usize, usize)| #[trigger]
                        v@.contains(p) <==> pre.contains(p) || p == ((c, r)) by {
                        lemma_push_contains(pre, (c, r), p);
                    }
                    if v0.no_duplicates() && (forall|p: (usize, usize)|
                        v0.contains(p) ==> !(p.0 < sc && p.1 as int - p.0 as int == sr as int - sc as int && diag_line(
                            m.grid,
                            sc as int,
                            sr as int,
                            p.0 as int,
                            p.1 as int,
                        ) && legal_move_spec(m, sc as int, sr as int, p.0 as int, p.1 as int))) {
                        assert(!pre.contains((c, r)));
                        lemma_push_no_dup(pre, (c, r));
                    }
                }
            }
            if self.piece_at(c, r) != Piece::Empty {
                blocked = true;
            }
        }
        proof {
            assert forall|p: (usize, usize)| #[trigger]
                v@.contains(p) <==> v0.contains(p) || (p.0 < sc && p.1 as int - p.0 as int == sr
                    as int - sc as int && diag_line(
                    m.grid,
                    sc as int,
                    sr as int,
                    p.0 as int,
                    p.1 as int,
                ) && legal_move_spec(m, sc as int, sr as int, p.0 as int, p.1 as int)) by {
                if !v@.contains(p) && p.0 < sc && p.1 as int - p.0 as int == sr as int - sc as int
                    && diag_line(m.grid, sc as int, sr as int, p.0 as int, p.1 as int)
                    && legal_move_spec(m, sc as int, sr as int, p.0 as int, p.1 as int) {
                    assert(p.0 < c && blocked);
                    assert(strictly_between(p.0 as int, c as int, sc as int));
                    assert(grid_at(m.grid, c as int, r as int) == Piece::Empty);
                }
            }
        }
    }

    /// Walks the diagonal toward increasing column, decreasing row.
    #[verifier::loop_isolation(false)]
    fn slide_up_right(&mut self, v: &mut Vec<(usize, usize)>, sc: usize, sr: usize)
        requires
            old(self)@.wf(),
            sc < 8,
            sr < 8,
        ensures
            final(self)@ == old(self)@,
            forall|p: (usize, usize)| #[trigger]
                final(v)@.contains(p) <==> old(v)@.contains(p) || (p.0 > sc && p.0 < 8 && p.1
                    as int + p.0 as int == sr as int + sc as int && diag_line(
                    old(self)@.grid,
                    sc as int,
                    sr as int,
                    p.0 as int,
                    p.1 as int,
                ) && legal_move_spec(old(self)@, sc as int, sr as int, p.0 as int, p.1 as int)),
            old(v)@.no_duplicates() && (forall|p: (usize, usize)|
                old(v)@.contains(p) ==> !(p.0 > sc && p.0 < 8 && p.1 as int + p.0 as int == sr
                    as int + sc as int && diag_line(
                    old(self)@.grid,
                    sc as int,
                    sr as int,
                    p.0 as int,
                    p.1 as int,
                ) && legal_move_spec(old(self)@, sc as int, sr as int, p.0 as int, p.1 as int)))
                ==> final(v)@.no_duplicates(),
    {
        let ghost m = self@;
        let ghost v0 = v@;
        let mut c: usize = sc;
        let mut r: usize = sr;
        let mut blocked: bool = false;
        while c < 7 && r > 0 && !blocked
            invariant
                sc <= c < 8,
                r <= sr,
                c - sc == sr - r,
                self@ == m,
                !blocked ==> forall|x: int, y: int|
                    sc < x <= c && y + x == sr as int + sc as int ==> #[trigger] grid_at(
                        m.grid,
                        x,
                        y,
                    ) == Piece::Empty,
                blocked ==> c > sc && grid_at(m.grid, c as int, r as int) != Piece::Empty
                    && forall|x: int, y: int|
                    sc < x < c && y + x == sr as int + sc as int ==> #[trigger] grid_at(m.grid, x, y)
                        == Piece::Empty,
                forall|p: (usize, usize)| #[trigger]
                    v@.contains(p) <==> v0.contains(p) || (sc < p.0 <= c && p.1 as int + p.0 as int
                        == sr as int + sc as int && diag_line(
                        m.grid,
                        sc as int,
                        sr as int,
                        p.0 as int,
                        p.1 as int,
                    ) && legal_move_spec(m, sc as int, sr as int, p.0 as int, p.1 as int)),
                v0.no_duplicates() && (forall|p: (usize, usize)|
                    v0.contains(p) ==> !(p.0 > sc && p.0 < 8 && p.1 as int + p.0 as int == sr
                        as int + sc as int && diag_line(
                        m.grid,
                        sc as int,
                        sr as int,
                        p.0 as int,
                        p.1 as int,
                    ) && legal_move_spec(m, sc as int, sr as int, p.0 as int, p.1 as int)))
                    ==> v@.no_duplicates(),
            decreases 7 - c,
        {
            c = c + 1;
            r = r - 1;
            proof {
                assert(diag_line(m.grid, sc as int, sr as int, c as int, r as int));
            }
            if self.is_legal_move(sc, sr, c, r) {
                let ghost pre = v@;
                v.push((c, r));
                proof {
                    assert forall|p: (usize, usize)| #[trigger]
                        v@.contains(p) <==> pre.contains(p) || p == ((c, r)) by {
                        lemma_push_contains(pre, (c, r), p);
                    }
                    if v0.no_duplicates() && (forall|p: (usize, usize)|
                        v0.contains(p) ==> !(p.0 > sc && p.0 < 8 && p.1 as int + p.0 as int == sr as int + sc as int && diag_line(
                            m.grid,
                            sc as int,
                            sr as int,
                            p.0 as int,
                            p.1 as int,
                        ) && legal_move_spec(m, sc as int, sr as int, p.0 as int, p.1 as int))) {
                        assert(!pre.contains((c, r)));
                        lemma_push_no_dup(pre, (c, r));
                    }
                }
            }
            if self.piece_at(c, r) != Piece::Empty {
                blocked = true;
            }
        }
        proof {
            assert forall|p: (usize, usize)| #[trigger]
                v@.contains(p) <==> v0.contains(p) || (p.0 > sc && p.0 < 8 && p.1 as int + p.0
                    as int == sr as int + sc as int && diag_line(
                    m.grid,
                    sc as int,
                    sr as int,
                    p.0 as int,
                    p.1 as int,
                ) && legal_move_spec(m, sc as int, sr as int, p.0 as int, p.1 as int)) by {
                if !v@.contains(p) && p.0 > sc && p.0 < 8 && p.1 as int + p.0 as int == sr as int
                    + sc as int && diag_line(m.grid, sc as int, sr as int, p.0 as int, p.1 as int)
                    && legal_move_spec(m, sc as int, sr as int, p.0 as int, p.1 as int) {
                    assert(p.0 > c && blocked);
                    assert(strictly_between(sc as int, c as int, p.0 as int));
                    assert(grid_at(m.grid, c as int, r as int) == Piece::Empty);
                }
            }
        }
    }

    /// Walks the diagonal toward decreasing column, increasing row.
    #[verifier::loop_isolation(false)]
    fn slide_down_left(&mut self, v: &mut Vec<(usize, usize)>, sc: usize, sr: usize)
        requires
            old(self)@.wf(),
            sc < 8,
            sr < 8,
        ensures
            final(self)@ == old(self)@,
            forall|p: (usize, usize)| #[trigger]
                final(v)@.contains(p) <==> old(v)@.contains(p) || (p.0 < sc && p.1 < 8 && p.1
                    as int + p.0 as int == sr as int + sc as int && diag_line(
                    old(self)@.grid,
                    sc as int,
                    sr as int,
                    p.0 as int,
                    p.1 as int,
                ) && legal_move_spec(old(self)@, sc as int, sr as int, p.0 as int, p.1 as int)),
            old(v)@.no_duplicates() && (forall|p: (usize, usize)|
                old(v)@.contains(p) ==> !(p.0 < sc && p.1 < 8 && p.1 as int + p.0 as int == sr
                    as int + sc as int && diag_line(
                    old(self)@.grid,
                    sc as int,
                    sr as int,
                    p.0 as int,
                    p.1 as int,
                ) && legal_move_spec(old(self)@, sc as int, sr as int, p.0 as int, p.1 as int)))
                ==> final(v)@.no_duplicates(),
    {
        let ghost m = self@;
        let ghost v0 = v@;
        let mut c: usize = sc;
        let mut r: usize = sr;
        let mut blocked: bool = false;
        while c > 0 && r < 7 && !blocked
            invariant
                c <= sc,
                sr <= r < 8,
                sc - c == r - sr,
                self@ == m,
                !blocked ==> forall|x: int, y: int|
                    c <= x < sc && y + x == sr as int + sc as int ==> #[trigger] grid_at(
                        m.grid,
                        x,
                        y,
                    ) == Piece::Empty,
                blocked ==> c < sc && grid_at(m.grid, c as int, r as int) != Piece::Empty
                    && forall|x: int, y: int|
                    c < x < sc && y + x == sr as int + sc as int ==> #[trigger] grid_at(m.grid, x, y)
                        == Piece::Empty,
                forall|p: (usize, usize)| #[trigger]
                    v@.contains(p) <==> v0.contains(p) || (c <= p.0 < sc && p.1 as int + p.0 as int
                        == sr as int + sc as int && diag_line(
                        m.grid,
                        sc as int,
                        sr as int,
                        p.0 as int,
                        p.1 as int,
                    ) && legal_move_spec(m, sc as int, sr as int, p.0 as int, p.1 as int)),
                v0.no_duplicates() && (forall|p: (usize, usize)|
                    v0.contains(p) ==> !(p.0 < sc && p.1 < 8 && p.1 as int + p.0 as int == sr
                        as int + sc as int && diag_line(
                        m.grid,
                        sc as int,
                        sr as int,
                        p.0 as int,
                        p.1 as int,
                    ) && legal_move_spec(m, sc as int, sr as int, p.0 as int, p.1 as int)))
                    ==> v@.no_duplicates(),
            decreases c,
        {
            c = c - 1;
            r = r + 1;
            proof {
                assert(diag_line(m.grid, sc as int, sr as int, c as int, r as int));
            }
            if self.is_legal_move(sc, sr, c, r) {
                let ghost pre = v@;
                v.push((c, r));
                proof {
                    assert forall|p: (usize, usize)| #[trigger]
                        v@.contains(p) <==> pre.contains(p) || p == ((c, r)) by {
                        lemma_push_contains(pre, (c, r), p);
                    }
                    if v0.no_duplicates() && (forall|p: (usize, usize)|
                        v0.contains(p) ==> !(p.0 < sc && p.1 < 8 && p.1 as int + p.0 as int == sr as int + sc as int && diag_line(
                            m.grid,
                            sc as int,
                            sr as int,
                            p.0 as int,
                            p.1 as int,
                        ) && legal_move_spec(m, sc as int, sr as int, p.0 as int, p.1 as int))) {
                        assert(!pre.contains((c, r)));
                        lemma_push_no_dup(pre, (c, r));
                    }
                }
            }
            if self.piece_at(c, r) != Piece::Empty {
                blocked = true;
            }
        }
        proof {
            assert forall|p: (usize, usize)| #[trigger]
                v@.contains(p) <==> v0.contains(p) || (p.0 < sc && p.1 < 8 && p.1 as int + p.0
                    as int == sr as int + sc as int && diag_line(
                    m.grid,
                    sc as int,
                    sr as int,
                    p.0 as int,
                    p.1 as int,
                ) && legal_move_spec(m, sc as int, sr as int, p.0 as int, p.1 as int)) by {
                if !v@.contains(p) && p.0 < sc && p.1 < 8 && p.1 as int + p.0 as int == sr as int
                    + sc as int && diag_line(m.grid, sc as int, sr as int, p.0 as int, p.1 as int)
                    && legal_move_spec(m, sc as int, sr as int, p.0 as int, p.1 as int) {
                    assert(p.0 < c);
                    if blocked {
                        assert(strictly_between(p.0 as int, c as int, sc as int));
                        assert(grid_at(m.grid, c as int, r as int) == Piece::Empty);
                    } else {
                        // The walk stopped at the bottom edge; any
                        // farther square on this diagonal is off the
                        // board.
                        assert(r == 7);
                        assert(p.1 as int > 7);
                    }
                }
            }
        }
    }

    /// Walks the diagonal toward increasing column and row.
    #[verifier::loop_isolation(false)]
    fn slide_down_right(&mut self, v: &mut Vec<(usize, usize)>, sc: usize, sr: usize)
        requires
            old(self)@.wf(),
            sc < 8,
            sr < 8,
        ensures
            final(self)@ == old(self)@,
            forall|p: (usize, usize)| #[trigger]
                final(v)@.contains(p) <==> old(v)@.contains(p) || (p.0 > sc && p.0 < 8 && p.1 < 8
                    && p.1 as int - p.0 as int == sr as int - sc as int && diag_line(
                    old(self)@.grid,
                    sc as int,
                    sr as int,
                    p.0 as int,
                    p.1 as int,
                ) && legal_move_spec(old(self)@, sc as int, sr as int, p.0 as int, p.1 as int)),
            old(v)@.no_duplicates() && (forall|p: (usize, usize)|
                old(v)@.contains(p) ==> !(p.0 > sc && p.0 < 8 && p.1 < 8 && p.1 as int - p.0 as int
                    == sr as int - sc as int && diag_line(
                    old(self)@.grid,
                    sc as int,
                    sr as int,
                    p.0 as int,
                    p.1 as int,
                ) && legal_move_spec(old(self)@, sc as int, sr as int, p.0 as int, p.1 as int)))
                ==> final(v)@.no_duplicates(),
    {
        let ghost m = self@;
        let ghost v0 = v@;
        let mut c: usize = sc;
        let mut r: usize = sr;
        let mut blocked: bool = false;
        while c < 7 && r < 7 && !blocked
            invariant
                sc <= c < 8,
                sr <= r < 8,
                c - sc == r - sr,
                self@ == m,
                !blocked ==> forall|x: int, y: int|
                    sc < x <= c && y - x == sr as int - sc as int ==> #[trigger] grid_at(
                        m.grid,
                        x,
                        y,
                    ) == Piece::Empty,
                blocked ==> c > sc && grid_at(m.grid, c as int, r as int) != Piece::Empty
                    && forall|x: int, y: int|
                    sc < x < c && y - x == sr as int - sc as int ==> #[trigger] grid_at(m.grid, x, y)
                        == Piece::Empty,
                forall|p: (usize, usize)| #[trigger]
                    v@.contains(p) <==> v0.contains(p) || (sc < p.0 <= c && p.1 as int - p.0 as int
                        == sr as int - sc as int && diag_line(
                        m.grid,
                        sc as int,
                        sr as int,
                        p.0 as int,
                        p.1 as int,
                    ) && legal_move_spec(m, sc as int, sr as int, p.0 as int, p.1 as int)),
                v0.no_duplicates() && (forall|p: (usize, usize)|
                    v0.contains(p) ==> !(p.0 > sc && p.0 < 8 && p.1 < 8 && p.1 as int - p.0 as int
                        == sr as int - sc as int && diag_line(
                        m.grid,
                        sc as int,
                        sr as int,
                        p.0 as int,
                        p.1 as int,
                    ) && legal_move_spec(m, sc as int, sr as int, p.0 as int, p.1 as int)))
                    ==> v@.no_duplicates(),
            decreases 7 - c,
        {
            c = c + 1;
            r = r + 1;
            proof {
                assert(diag_line(m.grid, sc as int, sr as int, c as int, r as int));
            }
            if self.is_legal_move(sc, sr, c, r) {
                let ghost pre = v@;
                v.push((c, r));
                proof {
                    assert forall|p: (usize, usize)| #[trigger]
                        v@.contains(p) <==> pre.contains(p) || p == ((c, r)) by {
                        lemma_push_contains(pre, (c, r), p);
                    }
                    if v0.no_duplicates() && (forall|p: (usize, usize)|
                        v0.contains(p) ==> !(p.0 > sc && p.0 < 8 && p.1 < 8 && p.1 as int - p.0 as int == sr as int - sc as int && diag_line(
                            m.grid,
                            sc as int,
                            sr as int,
                            p.0 as int,
                            p.1 as int,
                        ) && legal_move_spec(m, sc as int, sr as int, p.0 as int, p.1 as int))) {
                        assert(!pre.contains((c, r)));
                        lemma_push_no_dup(pre, (c, r));
                    }
                }
            }
            if self.piece_at(c, r) != Piece::Empty {
                blocked = true;
            }
        }
        proof {
            assert forall|p: (usize, usize)| #[trigger]
                v@.contains(p) <==> v0.contains(p) || (p.0 > sc && p.0 < 8 && p.1 < 8 && p.1 as int
                    - p.0 as int == sr as int - sc as int && diag_line(
                    m.grid,
                    sc as int,
                    sr as int,
                    p.0 as int,
                    p.1 as int,
                ) && legal_move_spec(m, sc as int, sr as int, p.0 as int, p.1 as int)) by {
                if !v@.contains(p) && p.0 > sc && p.0 < 8 && p.1 < 8 && p.1 as int - p.0 as int
                    == sr as int - sc as int && diag_line(
                    m.grid,
                    sc as int,
                    sr as int,
                    p.0 as int,
                    p.1 as int,
                ) && legal_move_spec(m, sc as int, sr as int, p.0 as int, p.1 as int) {
                    assert(p.0 > c);
                    if blocked {
                        assert(strictly_between(sc as int, c as int, p.0 as int));
                        assert(grid_at(m.grid, c as int, r as int) == Piece::Empty);
                    } else {
                        // The walk stopped at an edge; any farther
                        // square on this diagonal is off the board.
                        assert(c == 7 || r == 7);
                        assert(p.0 as int > 7 || p.1 as int > 7);
                    }
                }
            }
        }
    }

    /// All legal destinations of the bishop on `(sc, sr)`.
    fn bishop_dests(&mut self, sc: usize, sr: usize) -> (v: Vec<(usize, usize)>)
        requires
            old(self)@.wf(),
            sc < 8,
            sr < 8,
            old(self)@.at(sc as int, sr as int).spec_kind() == Some(PieceKind::Bishop),
        ensures
            final(self)@ == old(self)@,
            forall|p: (usize, usize)| #[trigger]
                v@.contains(p) <==> move_allowed(
                    old(self)@,
                    sc as int,
                    sr as int,
                    p.0 as int,
                    p.1 as int,
                ),
            v@.no_duplicates(),
    {
        let ghost m = self@;
        let mut v: Vec<(usize, usize)> = Vec::new();
        self.slide_up_left(&mut v, sc, sr);
        let ghost s1 = v@;
        self.slide_up_right(&mut v, sc, sr);
        let ghost s2 = v@;
        self.slide_down_left(&mut v, sc, sr);
        let ghost s3 = v@;
        self.slide_down_right(&mut v, sc, sr);
        proof {
            // The four scans cover four disjoint quarters of the two
            // diagonals, so the combined list stays duplicate-free.
            assert(s1.no_duplicates());
            assert(s2.no_duplicates());
            assert(s3.no_duplicates());
            assert(v@.no_duplicates());
        }
        proof {
            let sci = sc as int;
            let sri = sr as int;
            assert forall|p: (usize, usize)| #[trigger]
                v@.contains(p) <==> move_allowed(m, sci, sri, p.0 as int, p.1 as int) by {
                let tc = p.0 as int;
                let tr = p.1 as int;
                if move_allowed(m, sci, sri, tc, tr) {
                    assert(!castle_dest(m, sci, sri, tc, tr));
                    assert(diag_line(m.grid, sci, sri, tc, tr));
                    assert(v@.contains(p));
                }
            }
        }
        v
    }

    /// All legal destinations of the queen on `(sc, sr)`.
    fn queen_dests(&mut self, sc: usize, sr: usize) -> (v: Vec<(usize, usize)>)
        requires
            old(self)@.wf(),
            sc < 8,
            sr < 8,
            old(self)@.at(sc as int, sr as int).spec_kind() == Some(PieceKind::Queen),
        ensures
            final(self)@ == old(self)@,
            forall|p: (usize, usize)| #[trigger]
                v@.contains(p) <==> move_allowed(
                    old(self)@,
                    sc as int,
                    sr as int,
                    p.0 as int,
                    p.1 as int,
                ),
            v@.no_duplicates(),
    {
        let ghost m = self@;
        let mut v: Vec<(usize, usize)> = Vec::new();
        self.slide_left(&mut v, sc, sr);
        let ghost s1 = v@;
        self.slide_right(&mut v, sc, sr);
        let ghost s2 = v@;
        self.slide_up(&mut v, sc, sr);
        let ghost s3 = v@;
        self.slide_down(&mut v, sc, sr);
        let ghost s4 = v@;
        self.slide_up_left(&mut v, sc, sr);
        let ghost s5 = v@;
        self.slide_up_right(&mut v, sc, sr);
        let ghost s6 = v@;
        self.slide_down_left(&mut v, sc, sr);
        let ghost s7 = v@;
        self.slide_down_right(&mut v, sc, sr);
        proof {
            // The eight scans cover disjoint parts of the ranks,
            // files and diagonals through the queen's square, so the
            // combined list stays duplicate-free.
            assert(s1.no_duplicates());
            assert(s2.no_duplicates());
            assert(s3.no_duplicates());
            assert(s4.no_duplicates());
            assert(s5.no_duplicates());
            assert(s6.no_duplicates());
            assert(s7.no_duplicates());
            assert(v@.no_duplicates());
        }
        proof {
            let sci = sc as int;
            let sri = sr as int;
            assert forall|p: (usize, usize)| #[trigger]
                v@.contains(p) <==> move_allowed(m, sci, sri, p.0 as int, p.1 as int) by {
                let tc = p.0 as int;
                let tr = p.1 as int;
                if move_allowed(m, sci, sri, tc, tr) {
                    assert(!castle_dest(m, sci, sri, tc, tr));
                    assert(ortho_line(m.grid, sci, sri, tc, tr) || diag_line(
                        m.grid,
                        sci,
                        sri,
                        tc,
                        tr,
                    ));
                    assert(v@.contains(p));
                }
            }
        }
        v
    }

    /// All legal destinations of the pawn of color `col` on
    /// `(sc, sr)`: one step forward onto an empty square, two steps
    /// from the starting row across empty squares, and diagonal
    /// captures.  There is no en passant.
    fn pawn_dests(&mut self, sc: usize, sr: usize, col: Color) -> (v: Vec<(usize, usize)>)
        requires
            old(self)@.wf(),
            sc < 8,
            sr < 8,
            old(self)@.at(sc as int, sr as int) == Piece::Occupied(col, PieceKind::Pawn),
        ensures
            final(self)@ == old(self)@,
            forall|p: (usize, usize)| #[trigger]
                v@.contains(p) <==> move_allowed(
                    old(self)@,
                    sc as int,
                    sr as int,
                    p.0 as int,
                    p.1 as int,
                ),
            v@.no_duplicates(),
    {
        let ghost m = self@;
        let mut v: Vec<(usize, usize)> = Vec::new();
        let fwd_ok: bool = match col {
            Color::White => sr > 0,
            Color::Black => sr < 7,
        };
        if fwd_ok {
            let fr: usize = match col {
                Color::White => sr - 1,
                Color::Black => sr + 1,
            };
            proof {
                assert(fr as int == sr as int + pawn_forward(col));
            }
            if self.piece_at(sc, fr) == Piece::Empty {
                if self.is_legal_move(sc, sr, sc, fr) {
                    let ghost pre = v@;
                    v.push((sc, fr));
                    proof {
                        assert forall|p: (usize, usize)| #[trigger]
                            v@.contains(p) <==> pre.contains(p) || p == ((sc, fr)) by {
                            lemma_push_contains(pre, (sc, fr), p);
                        }
                        assert(!pre.contains((sc, fr)));
                        lemma_push_no_dup(pre, (sc, fr));
                    }
                }
                let start_ok: bool = match col {
                    Color::White => sr == 6,
                    Color::Black => sr == 1,
                };
                if start_ok {
                    let fr2: usize = match col {
                        Color::White => sr - 2,
                        Color::Black => sr + 2,
                    };
                    proof {
                        assert(fr2 as int == sr as int + 2 * pawn_forward(col));
                    }
                    if self.piece_at(sc, fr2) == Piece::Empty {
                        if self.is_legal_move(sc, sr, sc, fr2) {
                            let ghost pre = v@;
                            v.push((sc, fr2));
                            proof {
                                assert forall|p: (usize, usize)| #[trigger]
                                    v@.contains(p) <==> pre.contains(p) || p == ((sc, fr2)) by {
                                    lemma_push_contains(pre, (sc, fr2), p);
                                }
                                assert(!pre.contains((sc, fr2)));
                                lemma_push_no_dup(pre, (sc, fr2));
                            }
                        }
                    }
                }
            }
            if sc > 0 {
                let t = self.piece_at(sc - 1, fr);
                if t.has_color(col.opposite()) {
                    if self.is_legal_move(sc, sr, sc - 1, fr) {
                        let ghost pre = v@;
                        v.push((sc - 1, fr));
                        proof {
                            assert forall|p: (usize, usize)| #[trigger]
                                v@.contains(p) <==> pre.contains(p) || p == ((
                                (sc - 1) as usize,
                                fr,
                            )) by {
                                lemma_push_contains(pre, ((sc - 1) as usize, fr), p);
                            }
                            assert(!pre.contains(((sc - 1) as usize, fr)));
                            lemma_push_no_dup(pre, ((sc - 1) as usize, fr));
                        }
                    }
                }
            }
            if sc < 7 {
                let t = self.piece_at(sc + 1, fr);
                if t.has_color(col.opposite()) {
                    if self.is_legal_move(sc, sr, sc + 1, fr) {
                        let ghost pre = v@;
                        v.push((sc + 1, fr));
                        proof {
                            assert forall|p: (usize, usize)| #[trigger]
                                v@.contains(p) <==> pre.contains(p) || p == ((
                                (sc + 1) as usize,
                                fr,
                            )) by {
                                lemma_push_contains(pre, ((sc + 1) as usize, fr), p);
                            }
                            assert(!pre.contains(((sc + 1) as usize, fr)));
                            lemma_push_no_dup(pre, ((sc + 1) as usize, fr));
                        }
                    }
                }
            }
        }
        proof {
            let sci = sc as int;
            let sri = sr as int;
            assert forall|p: (usize, usize)| #[trigger]
                v@.contains(p) <==> move_allowed(m, sci, sri, p.0 as int, p.1 as int) by {
                let tc = p.0 as int;
                let tr = p.1 as int;
                if move_allowed(m, sci, sri, tc, tr) {
                    assert(!castle_dest(m, sci, sri, tc, tr));
                    assert(pawn_dest(m, col, sci, sri, tc, tr));
                    assert(v@.contains(p));
                }
            }
        }
        v
    }

    /// The move generator's public entry: every legal destination for
    /// the piece on `(sc, sr)`, castling included; the empty set for
    /// an empty square.  The board is left exactly as it was found.
    pub fn get_legal_moves_for_piece(&mut self, sc: usize, sr: usize) -> (v: Vec<(usize, usize)>)
        requires
            old(self)@.wf(),
            sc < 8,
            sr < 8,
        ensures
            final(self)@ == old(self)@,
            forall|p: (usize, usize)| #[trigger]
                v@.contains(p) <==> move_allowed(
                    old(self)@,
                    sc as int,
                    sr as int,
                    p.0 as int,
                    p.1 as int,
                ),
            v@.no_duplicates(),
    {
        let pc = self.piece_at(sc, sr);
        match pc {
            Piece::Empty => {
                let v: Vec<(usize, usize)> = Vec::new();
                proof {
                    assert forall|p: (usize, usize)| #[trigger]
                        v@.contains(p) <==> move_allowed(
                            self@,
                            sc as int,
                            sr as int,
                            p.0 as int,
                            p.1 as int,
                        ) by {
                        assert(!v@.contains(p));
                        assert(!move_allowed(self@, sc as int, sr as int, p.0 as int, p.1 as int));
                    }
                }
                v
            },
            Piece::Occupied(col, PieceKind::King) => self.king_dests(sc, sr, col),
            Piece::Occupied(_, PieceKind::Queen) => self.queen_dests(sc, sr),
            Piece::Occupied(_, PieceKind::Rook) => self.rook_dests(sc, sr),
            Piece::Occupied(_, PieceKind::Bishop) => self.bishop_dests(sc, sr),
            Piece::Occupied(_, PieceKind::Knight) => self.knight_dests(sc, sr),
            Piece::Occupied(col, PieceKind::Pawn) => self.pawn_dests(sc, sr, col),
        }
    }

    /// Whether color `col` has any legal move anywhere on the board:
    /// the stalemate/checkmate test of the game state machine.  Stops
    /// at the first piece with a non-empty legal-move set.
    #[verifier::loop_isolation(false)]
    pub fn has_any_legal_move(&mut self, col: Color) -> (r: bool)
        requires
            old(self)@.wf(),
        ensures
            final(self)@ == old(self)@,
            r == color_has_move(old(self)@, col),
    {
        let ghost m = self@;
        let mut c: usize = 0;
        while c < 8
            invariant
                c <= 8,
                self@ == m,
                forall|sc: int, sr: int, tc: int, tr: int|
                    0 <= sc < c && in_bounds(sc, sr) && m.at(sc, sr).spec_has_color(col)
                        ==> !#[trigger] move_allowed(m, sc, sr, tc, tr),
            decreases 8 - c,
        {
            let mut rr: usize = 0;
            while rr < 8
                invariant
                    rr <= 8,
                    c < 8,
                    self@ == m,
                    forall|sr: int, tc: int, tr: int|
                        0 <= sr < rr && m.at(c as int, sr).spec_has_color(col)
                            ==> !#[trigger] move_allowed(m, c as int, sr, tc, tr),
                decreases 8 - rr,
            {
                if self.piece_at(c, rr).has_color(col) {
                    let mv = self.get_legal_moves_for_piece(c, rr);
                    if mv.len() > 0 {
                        proof {
                            let p = mv@[0];
                            assert(mv@.contains(p));
                            assert(move_allowed(m, c as int, rr as int, p.0 as int, p.1 as int));
                        }
                        return true;
                    }
                    proof {
                        assert forall|tc: int, tr: int| !#[trigger] move_allowed(
                            m,
                            c as int,
                            rr as int,
                            tc,
                            tr,
                        ) by {
                            if move_allowed(m, c as int, rr as int, tc, tr) {
                                let p = ((tc as usize, tr as usize));
                                assert(mv@.contains(p));
                            }
                        }
                    }
                }
                rr = rr + 1;
            }
            c = c + 1;
        }
        proof {
            if color_has_move(m, col) {
                let (sc, sr, tc, tr) = choose|sc: int, sr: int, tc: int, tr: int|
                    in_bounds(sc, sr) && m.at(sc, sr).spec_has_color(col) && #[trigger]
                    move_allowed(m, sc, sr, tc, tr);
                assert(!move_allowed(m, sc, sr, tc, tr));
            }
        }
        false
    }

    /// All legal destinations of the king of color `col` on
    /// `(sc, sr)`: the adjacent squares, plus the castling squares
    /// when castling is available.
    #[verifier::rlimit(30)]
    #[verifier::spinoff_prover]
    fn king_dests(&mut self, sc: usize, sr: usize, col: Color) -> (v: Vec<(usize, usize)>)
        requires
            old(self)@.wf(),
            sc < 8,
            sr < 8,
            old(self)@.at(sc as int, sr as int) == Piece::Occupied(col, PieceKind::King),
        ensures
            final(self)@ == old(self)@,
            forall|p: (usize, usize)| #[trigger]
                v@.contains(p) <==> move_allowed(
                    old(self)@,
                    sc as int,
                    sr as int,
                    p.0 as int,
                    p.1 as int,
                ),
            v@.no_duplicates(),
    {
        let ghost m = self@;
        let mut v: Vec<(usize, usize)> = Vec::new();
        self.try_step(&mut v, sc, sr, 1, 1);
        let ghost s1 = v@;
        self.try_step(&mut v, sc, sr, -1, 1);
        let ghost s2 = v@;
        self.try_step(&mut v, sc, sr, 1, -1);
        let ghost s3 = v@;
        self.try_step(&mut v, sc, sr, -1, -1);
        let ghost s4 = v@;
        self.try_step(&mut v, sc, sr, 1, 0);
        let ghost s5 = v@;
        self.try_step(&mut v, sc, sr, -1, 0);
        let ghost s6 = v@;
        self.try_step(&mut v, sc, sr, 0, -1);
        let ghost s7 = v@;
        self.try_step(&mut v, sc, sr, 0, 1);
        let ghost s8 = v@;
        proof {
            let sci = sc as int;
            let sri = sr as int;
            // No square one step away repeats an earlier one, and no
            // castling square is one step away.
            assert(s1.no_duplicates());
            assert(s2.no_duplicates());
            assert(s3.no_duplicates());
            assert(s4.no_duplicates());
            assert(s5.no_duplicates());
            assert(s6.no_duplicates());
            if in_bounds(sci, sri - 1) {
                assert(!s6.contains(((sc, (sri - 1) as usize))));
            }
            assert(s7.no_duplicates());
            if in_bounds(sci, sri + 1) {
                assert(!s7.contains(((sc, (sri + 1) as usize))));
            }
            assert(s8.no_duplicates());
            assert forall|p: (usize, usize)| s8.contains(p) implies !castle_dest(
                m,
                sci,
                sri,
                p.0 as int,
                p.1 as int,
            ) by {
                if castle_dest(m, sci, sri, p.0 as int, p.1 as int) {
                    assert(p.0 as int == 2 || p.0 as int == 6);
                    assert(sci == 4);
                }
            }
        }
        self.add_castle_dests(&mut v, sc, sr, col);
        proof {
            let sci = sc as int;
            let sri = sr as int;
            assert(v@.no_duplicates());
            assert forall|p: (usize, usize)| #[trigger]
                v@.contains(p) <==> move_allowed(m, sci, sri, p.0 as int, p.1 as int) by {
                let tc = p.0 as int;
                let tr = p.1 as int;
                if move_allowed(m, sci, sri, tc, tr) {
                    if castle_dest(m, sci, sri, tc, tr) {
                        assert(v@.contains(p));
                    } else {
                        assert(king_step(sci, sri, tc, tr));
                        let dc = tc - sci;
                        let dr = tr - sri;
                        if dc == 1 && dr == 1 {
                            assert(v@.contains(p));
                        } else if dc == -1 && dr == 1 {
                            assert(v@.contains(p));
                        } else if dc == 1 && dr == -1 {
                            assert(v@.contains(p));
                        } else if dc == -1 && dr == -1 {
                            assert(v@.contains(p));
                        } else if dc == 1 && dr == 0 {
                            assert(v@.contains(p));
                        } else if dc == -1 && dr == 0 {
                            assert(v@.contains(p));
                        } else if dc == 0 && dr == -1 {
                            assert(v@.contains(p));
                        } else {
                            assert(dc == 0 && dr == 1);
                            assert(v@.contains(p));
                        }
                    }
                }
            }
        }
        v
    }
}

} // verus!
