//! The game state machine: turn order, the current selection with its
//! cached legal-move set, move application, and the game outcome.

use vstd::prelude::*;

use crate::apply::{apply_move_spec, move_would_erase_king};
use crate::attack::attacked;
use crate::board::{in_bounds, Board};
use crate::moves::{color_has_move, move_allowed};
use crate::piece::{Color, Piece, PieceKind};

verus! {

/// The lifecycle of a game.
#[derive(Clone, Copy, PartialEq, Eq, Structural, Debug)]
pub enum GameStatus {
    NotStarted,
    InProgress,
    Draw,
    WhiteWins,
    BlackWins,
    Quitting,
    Restarting,
}

/// The two conditions the engine reports instead of acting on: a
/// coordinate off the 8x8 grid, and a move that would erase a king
/// from the board and so corrupt the state every legality check
/// depends on.
#[derive(Clone, Copy, PartialEq, Eq, Structural, Debug)]
pub enum EngineError {
    InvalidCoordinate,
    InternalInvariantViolation,
}

/// The terminal status in which `col` has won.
pub open spec fn winner_status(col: Color) -> GameStatus {
    match col {
        Color::White => GameStatus::WhiteWins,
        Color::Black => GameStatus::BlackWins,
    }
}

/// `col`'s king stands on a square attacked by the opponent.
pub open spec fn in_check(m: crate::board::BoardModel, col: Color) -> bool {
    attacked(m.grid, m.king_pos(col).0, m.king_pos(col).1, col.spec_opposite())
}

/// `col` has no legal move and is in check: the opponent has won.
pub open spec fn checkmated(m: crate::board::BoardModel, col: Color) -> bool {
    !color_has_move(m, col) && in_check(m, col)
}

/// `col` has no legal move but is not in check: the game is a draw.
pub open spec fn stalemated(m: crate::board::BoardModel, col: Color) -> bool {
    !color_has_move(m, col) && !in_check(m, col)
}

/// A chess game: the board, whose turn it is, the lifecycle status,
/// and the transient selection with its cached legal destinations.
pub struct Game {
    pub board: Board,
    pub turn: Color,
    pub status: GameStatus,
    pub selected: Option<(usize, usize)>,
    pub legal: Vec<(usize, usize)>,
}

/// Board, turn, status, selection and cache all agree between the two
/// games.
pub open spec fn same_game(a: Game, b: Game) -> bool {
    &&& a.board@ == b.board@
    &&& a.turn == b.turn
    &&& a.status == b.status
    &&& a.selected == b.selected
    &&& a.legal@ == b.legal@
}

impl Game {
    /// The game invariant: the board is well formed, and the cached
    /// legal-move set is exactly the legal-move set of the selected
    /// square (empty when nothing is selected).
    pub open spec fn inv(self) -> bool {
        &&& self.board@.wf()
        &&& self.legal@.no_duplicates()
        &&& match self.selected {
            Some(s) => in_bounds(s.0 as int, s.1 as int) && (forall|q: (usize, usize)| #[trigger]
                self.legal@.contains(q) <==> move_allowed(
                    self.board@,
                    s.0 as int,
                    s.1 as int,
                    q.0 as int,
                    q.1 as int,
                )),
            None => self.legal@.len() == 0,
        }
    }

    /// A fresh game: the standard starting position, White to move,
    /// nothing selected, waiting to be started.
    pub fn new() -> (g: Game)
        ensures
            g.inv(),
            g.status == GameStatus::NotStarted,
            g.turn == Color::White,
            g.selected is None,
            g.legal@.len() == 0,
            forall|c: int, r: int|
                in_bounds(c, r) ==> #[trigger] g.board@.at(c, r) == crate::board::start_piece(c, r),
            !g.board@.white_king_moved,
            !g.board@.black_king_moved,
            !g.board@.white_queenside_rook_moved,
            !g.board@.white_kingside_rook_moved,
            !g.board@.black_queenside_rook_moved,
            !g.board@.black_kingside_rook_moved,
    {
        Game {
            board: Board::new(),
            turn: Color::White,
            status: GameStatus::NotStarted,
            selected: None,
            legal: Vec::new(),
        }
    }

    /// A game over an arbitrary well-formed board with `turn` to
    /// move, already in progress.
    pub fn from_position(board: Board, turn: Color) -> (g: Game)
        requires
            board@.wf(),
        ensures
            g.inv(),
            g.status == GameStatus::InProgress,
            g.board@ == board@,
            g.turn == turn,
            g.selected is None,
            g.legal@.len() == 0,
    {
        Game { board, turn, status: GameStatus::InProgress, selected: None, legal: Vec::new() }
    }

    /// The explicit start action: leaves the opening screen.
    pub fn start(&mut self)
        requires
            old(self).inv(),
        ensures
            final(self).inv(),
            old(self).status == GameStatus::NotStarted ==> final(self).status
                == GameStatus::InProgress,
            old(self).status != GameStatus::NotStarted ==> final(self).status == old(self).status,
            final(self).board@ == old(self).board@,
            final(self).turn == old(self).turn,
            final(self).selected == old(self).selected,
            final(self).legal@ == old(self).legal@,
    {
        if matches!(self.status, GameStatus::NotStarted) {
            self.status = GameStatus::InProgress;
        }
    }

    /// The external quit action, possible from any state and terminal.
    pub fn quit(&mut self)
        requires
            old(self).inv(),
        ensures
            final(self).inv(),
            final(self).status == GameStatus::Quitting,
            final(self).board@ == old(self).board@,
            final(self).turn == old(self).turn,
            final(self).selected == old(self).selected,
            final(self).legal@ == old(self).legal@,
    {
        self.status = GameStatus::Quitting;
    }

    /// The external restart action: from a finished game, move to the
    /// transient restarting state; elsewhere it does nothing.
    pub fn request_restart(&mut self)
        requires
            old(self).inv(),
        ensures
            final(self).inv(),
            (old(self).status == GameStatus::Draw || old(self).status == GameStatus::WhiteWins
                || old(self).status == GameStatus::BlackWins) ==> final(self).status
                == GameStatus::Restarting,
            !(old(self).status == GameStatus::Draw || old(self).status == GameStatus::WhiteWins
                || old(self).status == GameStatus::BlackWins) ==> final(self).status == old(
                self,
            ).status,
            final(self).board@ == old(self).board@,
            final(self).turn == old(self).turn,
            final(self).selected == old(self).selected,
            final(self).legal@ == old(self).legal@,
    {
        if matches!(
            self.status,
            GameStatus::Draw | GameStatus::WhiteWins | GameStatus::BlackWins
        ) {
            self.status = GameStatus::Restarting;
        }
    }

    /// Replaces the game wholesale with a fresh one, as the restart
    /// path does.
    pub fn reset(&mut self)
        ensures
            final(self).inv(),
            final(self).status == GameStatus::NotStarted,
            final(self).turn == Color::White,
            final(self).selected is None,
            final(self).legal@.len() == 0,
            forall|c: int, r: int|
                in_bounds(c, r) ==> #[trigger] final(self).board@.at(c, r)
                    == crate::board::start_piece(c, r),
    {
        *self = Game::new();
    }

    /// The turn-start outcome test.  In a game in progress, when the
    /// color to move has no legal move at all, the game ends: the
    /// opponent wins if that color's king stands attacked, otherwise
    /// it is a draw.  A color with a legal move leaves the game in
    /// progress.
    pub fn refresh_outcome(&mut self)
        requires
            old(self).inv(),
        ensures
            final(self).inv(),
            final(self).board@ == old(self).board@,
            final(self).turn == old(self).turn,
            final(self).selected == old(self).selected,
            final(self).legal@ == old(self).legal@,
            old(self).status != GameStatus::InProgress ==> final(self).status == old(self).status,
            old(self).status == GameStatus::InProgress ==> final(self).status == ({
                let m = old(self).board@;
                let t = old(self).turn;
                if checkmated(m, t) {
                    winner_status(t.spec_opposite())
                } else if stalemated(m, t) {
                    GameStatus::Draw
                } else {
                    GameStatus::InProgress
                }
            }),
    {
        if !matches!(self.status, GameStatus::InProgress) {
            return;
        }
        let t = self.turn;
        if !self.board.has_any_legal_move(t) {
            let (kc, kr) = self.board.king_coords(t);
            let in_check = self.board.is_square_attacked(kc, kr, t.opposite());
            self.status = if in_check {
                match t {
                    Color::White => GameStatus::BlackWins,
                    Color::Black => GameStatus::WhiteWins,
                }
            } else {
                GameStatus::Draw
            };
        }
    }

    /// The mutating entry point of the engine: one clicked square,
    /// interpreted by the selection protocol.  Clicking one's own
    /// piece selects it and caches its legal moves; the selected
    /// square again deselects; another own piece re-selects; a cached
    /// legal destination applies the move and flips the turn; anything
    /// else deselects.  A coordinate off the board is rejected, and a
    /// move that would erase a king reports a violated invariant and
    /// changes nothing.
    pub fn handle_click(&mut self, x: usize, y: usize) -> (res: Result<(), EngineError>)
        requires
            old(self).inv(),
        ensures
            final(self).inv(),
            (x >= 8 || y >= 8) ==> same_game(*final(self), *old(self)) && res == Err::<
                (),
                EngineError,
            >(EngineError::InvalidCoordinate),
            x < 8 && y < 8 && old(self).status != GameStatus::InProgress ==> same_game(
                *final(self),
                *old(self),
            ) && res is Ok,
            ({
                let m = old(self).board@;
                let t = old(self).turn;
                x < 8 && y < 8 && old(self).status == GameStatus::InProgress ==> match old(
                    self,
                ).selected {
                    None => {
                        if m.at(x as int, y as int).spec_has_color(t) {
                            &&& final(self).selected == Some((x, y))
                            &&& final(self).board@ == m
                            &&& final(self).turn == t
                            &&& final(self).status == old(self).status
                            &&& res is Ok
                        } else {
                            same_game(*final(self), *old(self)) && res is Ok
                        }
                    },
                    Some(s) => {
                        if s == (x, y) {
                            &&& final(self).selected is None
                            &&& final(self).legal@.len() == 0
                            &&& final(self).board@ == m
                            &&& final(self).turn == t
                            &&& final(self).status == old(self).status
                            &&& res is Ok
                        } else if m.at(x as int, y as int).spec_has_color(t) && m.at(
                            s.0 as int,
                            s.1 as int,
                        ).spec_has_color(t) {
                            &&& final(self).selected == Some((x, y))
                            &&& final(self).board@ == m
                            &&& final(self).turn == t
                            &&& final(self).status == old(self).status
                            &&& res is Ok
                        } else if move_allowed(m, s.0 as int, s.1 as int, x as int, y as int) {
                            if move_would_erase_king(m, s.0 as int, s.1 as int, x as int, y as int) {
                                same_game(*final(self), *old(self)) && res == Err::<
                                    (),
                                    EngineError,
                                >(EngineError::InternalInvariantViolation)
                            } else {
                                &&& final(self).board@ == apply_move_spec(
                                    m,
                                    s.0 as int,
                                    s.1 as int,
                                    x as int,
                                    y as int,
                                )
                                &&& final(self).turn == t.spec_opposite()
                                &&& final(self).selected is None
                                &&& final(self).legal@.len() == 0
                                &&& final(self).status == old(self).status
                                &&& res is Ok
                            }
                        } else {
                            &&& final(self).selected is None
                            &&& final(self).legal@.len() == 0
                            &&& final(self).board@ == m
                            &&& final(self).turn == t
                            &&& final(self).status == old(self).status
                            &&& res is Ok
                        }
                    },
                }
            }),
    {
        if x >= 8 || y >= 8 {
            return Err(EngineError::InvalidCoordinate);
        }
        if !matches!(self.status, GameStatus::InProgress) {
            return Ok(());
        }
        let t = self.turn;
        match self.selected {
            None => {
                if self.board.piece_at(x, y).has_color(t) {
                    let mv = self.board.get_legal_moves_for_piece(x, y);
                    self.selected = Some((x, y));
                    self.legal = mv;
                }
                Ok(())
            },
            Some((sx, sy)) => {
                if sx == x && sy == y {
                    self.selected = None;
                    self.legal = Vec::new();
                    return Ok(());
                }
                if self.board.piece_at(x, y).has_color(t) && self.board.piece_at(sx, sy).has_color(
                    t,
                ) {
                    let mv = self.board.get_legal_moves_for_piece(x, y);
                    self.selected = Some((x, y));
                    self.legal = mv;
                    return Ok(());
                }
                if contains_dest(&self.legal, x, y) {
                    // The cache is exactly the legal set, so the move
                    // is allowed; refuse it only if it would erase a
                    // king from the board.
                    let dst = self.board.piece_at(x, y);
                    let mut erase: bool = matches!(dst, Piece::Occupied(_, PieceKind::King));
                    let moving = self.board.piece_at(sx, sy);
                    if matches!(moving, Piece::Occupied(_, PieceKind::King)) {
                        if x == sx + 2 {
                            if matches!(
                                self.board.piece_at(7, y),
                                Piece::Occupied(_, PieceKind::King)
                            ) {
                                erase = true;
                            }
                        } else if x + 2 == sx {
                            if matches!(
                                self.board.piece_at(0, y),
                                Piece::Occupied(_, PieceKind::King)
                            ) {
                                erase = true;
                            }
                        }
                    }
                    if erase {
                        return Err(EngineError::InternalInvariantViolation);
                    }
                    self.board.apply_move(sx, sy, x, y);
                    self.turn = t.opposite();
                    self.selected = None;
                    self.legal = Vec::new();
                    return Ok(());
                }
                self.selected = None;
                self.legal = Vec::new();
                Ok(())
            },
        }
    }

    /// The current lifecycle status.
    pub fn status(&self) -> (s: GameStatus)
        ensures
            s == self.status,
    {
        self.status
    }

    /// The color to move.
    pub fn current_turn(&self) -> (t: Color)
        ensures
            t == self.turn,
    {
        self.turn
    }

    /// The currently selected square, if any.
    pub fn selection(&self) -> (s: Option<(usize, usize)>)
        ensures
            s == self.selected,
    {
        self.selected
    }

    /// How many legal destinations the current selection has cached.
    pub fn legal_count(&self) -> (n: usize)
        ensures
            n == self.legal@.len(),
    {
        self.legal.len()
    }

    /// One cached legal destination, for highlight overlays.
    pub fn legal_destination(&self, i: usize) -> (q: (usize, usize))
        requires
            i < self.legal@.len(),
        ensures
            q == self.legal@[i as int],
    {
        self.legal[i]
    }

    /// The piece on square `(c, r)`: the read-only snapshot the
    /// presentation layer renders from.
    pub fn piece_at(&self, c: usize, r: usize) -> (p: Piece)
        requires
            self.inv(),
            c < 8,
            r < 8,
        ensures
            p == self.board@.at(c as int, r as int),
    {
        self.board.piece_at(c, r)
    }
}

/// Whether the cached destination list holds `(x, y)`.
fn contains_dest(v: &Vec<(usize, usize)>, x: usize, y: usize) -> (b: bool)
    ensures
        b == v@.contains((x, y)),
{
    let mut i: usize = 0;
    while i < v.len()
        invariant
            i <= v@.len(),
            forall|j: int| 0 <= j < i ==> v@[j] != (x, y),
        decreases v@.len() - i,
    {
        let q = v[i];
        if q.0 == x && q.1 == y {
            return true;
        }
        i = i + 1;
    }
    proof {
        if v@.contains((x, y)) {
            let j = choose|j: int| 0 <= j < v@.len() && v@[j] == (x, y);
            assert(v@[j] != (x, y));
        }
    }
    false
}

} // verus!
