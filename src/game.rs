use vstd::prelude::*;

use crate::board::{
    blank_grid, blocked, cleared, count_full, grid_wf, lemma_cleared_wf, locked, set_cell, stamp,
    Board, BOARD_HEIGHT, BOARD_WIDTH,
};
use crate::piece::Piece;
use crate::shapes::{lemma_rotated_offset_bounds, SHAPE_COUNT};

verus! {

/// Milliseconds between gravity steps.
pub const GRAVITY_MS: u64 = 500;

/// Milliseconds between gravity steps while soft drop is held.
pub const SOFT_DROP_GRAVITY_MS: u64 = 100;

/// Points for each cleared row.
pub const POINTS_PER_LINE: u64 = 10;

/// Largest score at which a lock can still add the points of every row.
pub const MAX_SCORE: u64 = 0xffff_ffff_ffff_ff37;

/// Which of the three modes the game is in.
#[derive(Clone, Copy, Debug, PartialEq, Eq, Structural)]
pub enum GameState {
    Playing,
    Paused,
    GameOver,
}

/// An input intent, already abstracted from keys and pointer regions.
#[derive(Clone, Copy, Debug, PartialEq, Eq, Structural)]
pub enum Intent {
    MoveLeft,
    MoveRight,
    RotateCw,
    /// Whether the soft-drop key is held.
    SoftDrop(bool),
    HardDrop,
    Pause,
    Resume,
    Restart,
}

/// What one gravity step did.
#[derive(Clone, Copy, Debug, PartialEq, Eq, Structural)]
pub enum GravityResult {
    /// The piece moved down one row.
    Fell,
    /// The piece was locked and this many rows were cleared.
    Locked(u8),
    /// The piece could not move down while part of it was above the grid;
    /// nothing was written and the game is over.
    ToppedOut,
}

/// The piece cannot move down one row.
pub open spec fn resting(p: Piece, b: Seq<Seq<u8>>) -> bool {
    p.translated(0, 1).collides(b)
}

/// Every cell of the piece is at row 0 or below.
pub open spec fn fully_visible(p: Piece) -> bool {
    forall|i: int| 0 <= i < 4 ==> 0 <= #[trigger] p.cell(i).1
}

/// `q` is where `p` comes to rest when moved straight down: the first
/// position at or below `p` whose next row down is blocked, with every
/// position on the way free.
pub open spec fn drop_target(p: Piece, q: Piece, b: Seq<Seq<u8>>) -> bool {
    &&& p.y <= q.y
    &&& q == p.translated(0, q.y - p.y)
    &&& resting(q, b)
    &&& forall|j: int| p.y <= j <= q.y ==> !(#[trigger] p.translated(0, j - p.y)).collides(b)
}

/// The outcome of a clockwise rotation: the turned piece at the first
/// horizontal offset of 0, +1, -1, +2, -2 that does not collide, or the piece
/// unchanged when none fits.
pub open spec fn kick_result(p: Piece, b: Seq<Seq<u8>>) -> Piece {
    let t = p.turned();
    if !t.collides(b) {
        t
    } else if !t.translated(1, 0).collides(b) {
        t.translated(1, 0)
    } else if !t.translated(-1, 0).collides(b) {
        t.translated(-1, 0)
    } else if !t.translated(2, 0).collides(b) {
        t.translated(2, 0)
    } else if !t.translated(-2, 0).collides(b) {
        t.translated(-2, 0)
    } else {
        p
    }
}

/// The outcome of a horizontal move by `dx`: moved when that is free,
/// unchanged otherwise.
pub open spec fn shift_result(p: Piece, b: Seq<Seq<u8>>, dx: int) -> Piece {
    if !p.translated(dx, 0).collides(b) {
        p.translated(dx, 0)
    } else {
        p
    }
}

/// Whether a gravity step may take `s` to `t` with result `r`, a piece of
/// `next` spawning after a lock. When the row below is free the piece falls
/// one row. Otherwise it locks: if part of it is above the grid nothing is
/// written and the game is over; else its cells are written, full rows are
/// cleared and scored, and the new piece spawns, ending the game when it
/// collides at once. The gravity timer and soft drop are left alone.
pub open spec fn gravity_post(s: GameEngine, t: GameEngine, next: usize, r: GravityResult) -> bool {
    if !resting(s.piece, s.board@) {
        r == GravityResult::Fell && t == (GameEngine { piece: s.piece.translated(0, 1), ..s })
    } else if !fully_visible(s.piece) {
        r == GravityResult::ToppedOut && t == (GameEngine { state: GameState::GameOver, ..s })
    } else {
        let b = locked(s.board@, s.piece);
        &&& r == GravityResult::Locked(count_full(b) as u8)
        &&& t.board@ == cleared(b)
        &&& t.score == s.score + POINTS_PER_LINE * count_full(b)
        &&& t.piece == Piece::spawned(next)
        &&& t.state == if Piece::spawned(next).collides(cleared(b)) {
            GameState::GameOver
        } else {
            s.state
        }
        &&& t.elapsed_ms == s.elapsed_ms
        &&& t.soft_drop == s.soft_drop
    }
}

/// The gravity interval that applies while soft drop is or is not held.
pub open spec fn gravity_interval(soft_drop: bool) -> u64 {
    if soft_drop {
        SOFT_DROP_GRAVITY_MS
    } else {
        GRAVITY_MS
    }
}

/// Gravity fires when the time since the last step, `dt_ms` included,
/// exceeds the interval.
pub open spec fn gravity_due(s: GameEngine, dt_ms: u64) -> bool {
    s.elapsed_ms + dt_ms > gravity_interval(s.soft_drop)
}

/// `t` is a fresh game whose piece has shape `next`.
pub open spec fn restarted(t: GameEngine, next: usize) -> bool {
    &&& t.board@ == blank_grid()
    &&& t.piece == Piece::spawned(next)
    &&& t.score == 0
    &&& t.state == GameState::Playing
    &&& t.elapsed_ms == 0
    &&& !t.soft_drop
}

/// Whether applying `intent` may take `s` to `t`, a piece of `next` spawning
/// on a restart. Intents that do not apply in the current mode change
/// nothing.
pub open spec fn intent_post(s: GameEngine, t: GameEngine, intent: Intent, next: usize) -> bool {
    let b = s.board@;
    match s.state {
        GameState::Playing => match intent {
            Intent::MoveLeft => t == (GameEngine { piece: shift_result(s.piece, b, -1), ..s }),
            Intent::MoveRight => t == (GameEngine { piece: shift_result(s.piece, b, 1), ..s }),
            Intent::RotateCw => t == (GameEngine { piece: kick_result(s.piece, b), ..s }),
            Intent::SoftDrop(held) => t == (GameEngine { soft_drop: held, ..s }),
            Intent::HardDrop => drop_target(s.piece, t.piece, b) && t == (GameEngine {
                piece: t.piece,
                elapsed_ms: 0,
                ..s
            }),
            Intent::Pause => t == (GameEngine { state: GameState::Paused, ..s }),
            _ => t == s,
        },
        GameState::Paused => match intent {
            Intent::Resume => t == (GameEngine { state: GameState::Playing, ..s }),
            Intent::Restart => restarted(t, next),
            _ => t == s,
        },
        GameState::GameOver => match intent {
            Intent::Restart => restarted(t, next),
            _ => t == s,
        },
    }
}

/// Four clockwise rotations that each fit without a kick bring the piece
/// back to where it started, with the same cells.
pub proof fn lemma_four_rotations(p: Piece, b: Seq<Seq<u8>>)
    requires
        p.wf(),
        !p.turned().collides(b),
        !p.turned().turned().collides(b),
        !p.turned().turned().turned().collides(b),
        !p.turned().turned().turned().turned().collides(b),
    ensures
        kick_result(kick_result(kick_result(kick_result(p, b), b), b), b) == p,
        kick_result(kick_result(kick_result(kick_result(p, b), b), b), b).cells() == p.cells(),
{
    p.lemma_four_turns();
}

/// A piece that does not collide lies near the grid.
pub proof fn lemma_free_piece_bounds(p: Piece, b: Seq<Seq<u8>>)
    requires
        p.wf(),
        !p.collides(b),
    ensures
        -3 <= p.x <= 12,
        p.y <= 22,
{
    lemma_rotated_offset_bounds(p.shape_index as int, 0, p.rotation as int);
    assert(!blocked(b, p.cell(0)));
}

/// Stamping a piece of a catalog shape keeps every cell a valid id.
pub proof fn lemma_stamp_wf(b: Seq<Seq<u8>>, p: Piece, k: nat)
    requires
        grid_wf(b),
        p.wf(),
        k <= 4,
        forall|i: int| 0 <= i < 4 ==> #[trigger] p.in_grid(i),
    ensures
        grid_wf(stamp(b, p, k)),
    decreases k,
{
    if k > 0 {
        lemma_stamp_wf(b, p, (k - 1) as nat);
        let s = stamp(b, p, (k - 1) as nat);
        let c = p.cell(k - 1);
        assert(p.in_grid(k - 1));
        let r = set_cell(s, c, (p.shape_index + 1) as u8);
        assert forall|y: int, x: int| 0 <= y < BOARD_HEIGHT && 0 <= x < BOARD_WIDTH implies #[trigger] r[y][x]
            <= SHAPE_COUNT by {
            if y == c.1 && x == c.0 {
            } else {
                assert(r[y][x] == s[y][x]);
            }
        }
        assert forall|y: int| 0 <= y < r.len() implies #[trigger] r[y].len() == BOARD_WIDTH by {
            assert(s[y].len() == BOARD_WIDTH);
        }
    }
}

/// Where `piece` comes to rest when dropped straight down; the ghost shown
/// under the falling piece.
pub fn drop_position(piece: &Piece, board: &Board) -> (q: Piece)
    requires
        piece.wf(),
        !piece.collides(board@),
    ensures
        drop_target(*piece, q, board@),
        !q.collides(board@),
{
    let mut p = *piece;
    proof {
        assert(p == piece.translated(0, 0));
    }
    loop
        invariant
            p.wf(),
            !p.collides(board@),
            piece.y <= p.y,
            p == piece.translated(0, p.y - piece.y),
            forall|j: int|
                piece.y <= j <= p.y ==> !(#[trigger] piece.translated(0, j - piece.y)).collides(board@),
        ensures
            drop_target(*piece, p, board@),
            !p.collides(board@),
        decreases 22 - p.y,
    {
        proof {
            lemma_free_piece_bounds(p, board@);
        }
        let t = Piece { y: p.y + 1, ..p };
        assert(t == p.translated(0, 1));
        if t.check_collision(board) {
            break;
        }
        assert(t == piece.translated(0, t.y - piece.y));
        proof {
            lemma_free_piece_bounds(t, board@);
        }
        p = t;
    }
    p
}

/// The whole mutable state of one game: the grid, the falling piece, the
/// score, the mode, the time since the last gravity step and whether soft
/// drop is held.
#[derive(Clone, Copy, Debug, PartialEq, Eq)]
pub struct GameEngine {
    pub board: Board,
    pub piece: Piece,
    pub score: u64,
    pub state: GameState,
    pub elapsed_ms: u64,
    pub soft_drop: bool,
}

/// What a renderer needs of one frame: the locked cells, the absolute cells
/// of the falling piece and of its ghost (none once the game is over), the
/// color id of the piece (its shape index), the score and the mode.
#[derive(Debug, PartialEq, Eq)]
pub struct Snapshot {
    pub board: Board,
    pub piece_cells: Vec<(i16, i16)>,
    pub ghost_cells: Option<Vec<(i16, i16)>>,
    pub shape_index: usize,
    pub score: u64,
    pub state: GameState,
}

/// The exact cells `v` of piece `p`, in catalog order.
pub open spec fn cells_of(v: Seq<(i16, i16)>, p: Piece) -> bool {
    &&& v.len() == 4
    &&& forall|i: int| 0 <= i < 4 ==> (#[trigger] v[i].0 as int, v[i].1 as int) == p.cell(i)
}

impl GameEngine {
    /// The board is valid, the piece is of a catalog shape, and outside
    /// game over the piece does not collide.
    pub open spec fn wf(&self) -> bool {
        &&& self.board.wf()
        &&& self.piece.wf()
        &&& self.state != GameState::GameOver ==> !self.piece.collides(self.board@)
    }

    /// A fresh game whose first piece has shape `shape`.
    pub fn new(shape: usize) -> (g: GameEngine)
        requires
            shape < SHAPE_COUNT,
        ensures
            g.wf(),
            g.board@ == blank_grid(),
            g.piece == Piece::spawned(shape),
            g.score == 0,
            g.state == GameState::Playing,
            g.elapsed_ms == 0,
            !g.soft_drop,
    {
        let board = Board::new();
        let piece = Piece::spawn(shape);
        proof {
            lemma_spawn_fits_empty(shape, board@);
        }
        GameEngine { board, piece, score: 0, state: GameState::Playing, elapsed_ms: 0, soft_drop: false }
    }

    /// Starts over: empty grid, a piece of `shape` at the spawn point, no
    /// score, playing, gravity timer at zero, soft drop released.
    pub fn restart(&mut self, shape: usize)
        requires
            shape < SHAPE_COUNT,
        ensures
            final(self).wf(),
            final(self).board@ == blank_grid(),
            final(self).piece == Piece::spawned(shape),
            final(self).score == 0,
            final(self).state == GameState::Playing,
            final(self).elapsed_ms == 0,
            !final(self).soft_drop,
    {
        *self = GameEngine::new(shape);
    }

    /// Moves the piece `dx` columns when the target is free; otherwise leaves
    /// it where it is.
    pub fn try_move(&mut self, dx: i8)
        requires
            old(self).wf(),
            old(self).state != GameState::GameOver,
            -2 <= dx <= 2,
        ensures
            *final(self) == (GameEngine {
                piece: shift_result(old(self).piece, old(self).board@, dx as int),
                ..*old(self)
            }),
            final(self).wf(),
    {
        proof {
            lemma_free_piece_bounds(self.piece, self.board@);
        }
        let candidate = Piece { x: self.piece.x + dx, ..self.piece };
        assert(candidate == self.piece.translated(dx as int, 0));
        if !candidate.check_collision(&self.board) {
            self.piece = candidate;
        }
    }

    /// Turns the piece clockwise, trying the horizontal kicks 0, +1, -1, +2,
    /// -2 in that order and taking the first that fits; when none fits the
    /// piece is left unchanged.
    pub fn rotate(&mut self)
        requires
            old(self).wf(),
            old(self).state != GameState::GameOver,
        ensures
            *final(self) == (GameEngine {
                piece: kick_result(old(self).piece, old(self).board@),
                ..*old(self)
            }),
            final(self).wf(),
    {
        proof {
            lemma_free_piece_bounds(self.piece, self.board@);
        }
        let turned = Piece { rotation: (self.piece.rotation + 1) % 4, ..self.piece };
        assert(turned == self.piece.turned());
        let kicks: [i8; 5] = [0, 1, -1, 2, -2];
        let mut k: usize = 0;
        while k < 5
            invariant
                k <= 5,
                self.wf(),
                self.state != GameState::GameOver,
                *self == *old(self),
                turned == old(self).piece.turned(),
                -3 <= turned.x <= 12,
                kicks@ == seq![0i8, 1i8, -1i8, 2i8, -2i8],
                forall|i: int|
                    0 <= i < k ==> (#[trigger] turned.translated(kicks@[i] as int, 0)).collides(
                        self.board@,
                    ),
            decreases 5 - k,
        {
            let candidate = Piece { x: turned.x + kicks[k], ..turned };
            assert(candidate == turned.translated(kicks@[k as int] as int, 0));
            if !candidate.check_collision(&self.board) {
                proof {
                    assert(turned.translated(0, 0) == turned);
                }
                self.piece = candidate;
                return;
            }
            k = k + 1;
        }
        proof {
            assert(turned.translated(0, 0) == turned);
            assert(turned.translated(kicks@[0] as int, 0).collides(self.board@));
            assert(turned.translated(kicks@[1] as int, 0).collides(self.board@));
            assert(turned.translated(kicks@[2] as int, 0).collides(self.board@));
            assert(turned.translated(kicks@[3] as int, 0).collides(self.board@));
            assert(turned.translated(kicks@[4] as int, 0).collides(self.board@));
        }
    }

    /// Moves the piece straight down to where it rests and restarts the
    /// gravity timer, as if a gravity step had just happened.
    pub fn hard_drop(&mut self)
        requires
            old(self).wf(),
            old(self).state != GameState::GameOver,
        ensures
            drop_target(old(self).piece, final(self).piece, old(self).board@),
            resting(final(self).piece, final(self).board@),
            *final(self) == (GameEngine { piece: final(self).piece, elapsed_ms: 0, ..*old(self) }),
            final(self).wf(),
    {
        self.piece = drop_position(&self.piece, &self.board);
        self.elapsed_ms = 0;
    }

    /// One gravity step. When the cell row below is free the piece falls one
    /// row. Otherwise it locks: if part of it is above the grid nothing is
    /// written and the game is over; else its cells are written, full rows
    /// are cleared and scored at ten points each, and a piece of `next_shape`
    /// spawns, ending the game when it collides at once.
    pub fn gravity_step(&mut self, next_shape: usize) -> (r: GravityResult)
        requires
            old(self).wf(),
            old(self).state != GameState::GameOver,
            old(self).score <= MAX_SCORE,
            next_shape < SHAPE_COUNT,
        ensures
            final(self).wf(),
            final(self).elapsed_ms == old(self).elapsed_ms,
            final(self).soft_drop == old(self).soft_drop,
            gravity_post(*old(self), *final(self), next_shape, r),
            old(self).score <= final(self).score,
            (final(self).score - old(self).score) % 10 == 0,
            final(self).score != old(self).score ==> r is Locked,
    {
        proof {
            lemma_free_piece_bounds(self.piece, self.board@);
        }
        let below = Piece { y: self.piece.y + 1, ..self.piece };
        assert(below == self.piece.translated(0, 1));
        if !below.check_collision(&self.board) {
            self.piece = below;
            return GravityResult::Fell;
        }
        let cells = self.piece.absolute_cells();
        let mut k: usize = 0;
        while k < 4
            invariant
                k <= 4,
                *self == *old(self),
                self.wf(),
                self.state != GameState::GameOver,
                below == self.piece.translated(0, 1),
                below.collides(self.board@),
                cells@.len() == 4,
                cells_of(cells@, self.piece),
                forall|i: int| 0 <= i < k ==> 0 <= #[trigger] self.piece.cell(i).1,
            decreases 4 - k,
        {
            assert(self.piece.cell(k as int) == (cells@[k as int].0 as int, cells@[k as int].1 as int));
            if cells[k].1 < 0 {
                self.state = GameState::GameOver;
                return GravityResult::ToppedOut;
            }
            k = k + 1;
        }
        let ghost before = self.board@;
        proof {
            assert forall|i: int| 0 <= i < 4 implies #[trigger] self.piece.in_grid(i) by {
                assert(!blocked(before, self.piece.cell(i)));
            }
            lemma_stamp_wf(before, self.piece, 4);
            lemma_cleared_wf(locked(before, self.piece));
        }
        let ghost start = *self;
        self.board.place(&self.piece);
        let lines = self.board.clear_lines();
        proof {
            crate::board::lemma_kept_count(locked(before, self.piece));
            assert(lines <= BOARD_HEIGHT);
        }
        self.score = self.score + POINTS_PER_LINE * lines as u64;
        self.piece = Piece::spawn(next_shape);
        if self.piece.check_collision(&self.board) {
            self.state = GameState::GameOver;
        }
        assert(gravity_post(start, *self, next_shape, GravityResult::Locked(lines)));
        GravityResult::Locked(lines)
    }

    /// Advances the clock by `dt_ms` milliseconds. While playing, gravity
    /// fires once when the time since the last step exceeds the interval
    /// (100 ms with soft drop held, else 500 ms), and the timer restarts;
    /// otherwise the time accumulates. Outside play nothing changes.
    pub fn tick(&mut self, dt_ms: u64, next_shape: usize) -> (r: Option<GravityResult>)
        requires
            old(self).wf(),
            old(self).score <= MAX_SCORE,
            next_shape < SHAPE_COUNT,
        ensures
            final(self).wf(),
            old(self).state != GameState::Playing ==> r is None && *final(self) == *old(self),
            old(self).state == GameState::Playing && !gravity_due(*old(self), dt_ms) ==> r is None
                && *final(self) == (GameEngine {
                elapsed_ms: (old(self).elapsed_ms + dt_ms) as u64,
                ..*old(self)
            }),
            old(self).state == GameState::Playing && gravity_due(*old(self), dt_ms) ==> r is Some
                && final(self).elapsed_ms == 0 && gravity_post(
                *old(self),
                GameEngine { elapsed_ms: old(self).elapsed_ms, ..*final(self) },
                next_shape,
                r->Some_0,
            ),
            old(self).score <= final(self).score,
            (final(self).score - old(self).score) % 10 == 0,
            final(self).score != old(self).score ==> r matches Some(GravityResult::Locked(_)),
    {
        if self.state != GameState::Playing {
            return None;
        }
        let interval = if self.soft_drop {
            SOFT_DROP_GRAVITY_MS
        } else {
            GRAVITY_MS
        };
        if self.elapsed_ms > interval || dt_ms > interval - self.elapsed_ms {
            let ghost start = *self;
            let r = self.gravity_step(next_shape);
            proof {
                crate::board::lemma_kept_count(locked(start.board@, start.piece));
            }
            assert(GameEngine { elapsed_ms: start.elapsed_ms, ..*self } == *self);
            self.elapsed_ms = 0;
            Some(r)
        } else {
            self.elapsed_ms = self.elapsed_ms + dt_ms;
            None
        }
    }

    /// Applies one input intent. While playing: move left or right, rotate
    /// with kicks, hold or release soft drop, hard drop, or pause. While
    /// paused: resume, or restart with a piece of `next_shape`. After game
    /// over: restart. Any other intent is ignored.
    pub fn apply_intent(&mut self, intent: Intent, next_shape: usize)
        requires
            old(self).wf(),
            next_shape < SHAPE_COUNT,
        ensures
            final(self).wf(),
            intent_post(*old(self), *final(self), intent, next_shape),
            intent != Intent::Restart ==> final(self).score == old(self).score,
    {
        match self.state {
            GameState::Playing => match intent {
                Intent::MoveLeft => self.try_move(-1),
                Intent::MoveRight => self.try_move(1),
                Intent::RotateCw => self.rotate(),
                Intent::SoftDrop(held) => {
                    self.soft_drop = held;
                },
                Intent::HardDrop => self.hard_drop(),
                Intent::Pause => {
                    self.state = GameState::Paused;
                },
                _ => {},
            },
            GameState::Paused => match intent {
                Intent::Resume => {
                    self.state = GameState::Playing;
                },
                Intent::Restart => self.restart(next_shape),
                _ => {},
            },
            GameState::GameOver => match intent {
                Intent::Restart => self.restart(next_shape),
                _ => {},
            },
        }
    }

    /// The read-only view of the current frame for a renderer.
    pub fn snapshot(&self) -> (r: Snapshot)
        requires
            self.wf(),
        ensures
            r.board == self.board,
            cells_of(r.piece_cells@, self.piece),
            r.shape_index == self.piece.shape_index,
            r.score == self.score,
            r.state == self.state,
            r.ghost_cells is None <==> self.state == GameState::GameOver,
            r.ghost_cells matches Some(g) ==> exists|q: Piece|
                drop_target(self.piece, q, self.board@) && cells_of(g@, q),
    {
        let ghost mut landing = self.piece;
        let ghost_cells = if self.state == GameState::GameOver {
            None
        } else {
            let q = drop_position(&self.piece, &self.board);
            proof {
                landing = q;
            }
            Some(q.absolute_cells())
        };
        let r = Snapshot {
            board: self.board,
            piece_cells: self.piece.absolute_cells(),
            ghost_cells,
            shape_index: self.piece.shape_index,
            score: self.score,
            state: self.state,
        };
        assert(r.ghost_cells matches Some(g) ==> drop_target(self.piece, landing, self.board@)
            && cells_of(g@, landing));
        r
    }
}

/// A piece at the spawn point fits on an empty grid.
proof fn lemma_spawn_fits_empty(shape: usize, b: Seq<Seq<u8>>)
    requires
        shape < SHAPE_COUNT,
        b == blank_grid(),
    ensures
        !Piece::spawned(shape).collides(b),
{
    let p = Piece::spawned(shape);
    assert forall|i: int| 0 <= i < 4 implies !#[trigger] blocked(b, p.cell(i)) by {
        crate::shapes::lemma_shape_offset_bounds(shape as int, i);
    }
}

} // verus!
