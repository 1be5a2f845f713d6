use vstd::prelude::*;

use crate::board::{blocked, Board, BOARD_HEIGHT, BOARD_WIDTH};
use crate::shapes::{
    lemma_rotated_offset_bounds, rotate_offset, rotate_offset_exec, shape_cell, shape_offset,
    SHAPE_COUNT,
};

verus! {

/// Relies on macroquad::rand::gen_range (a re-export of quad-rand): for
/// `low < high` it scales a 32-bit draw into `[low, high)`, which stays below
/// `high` for ranges this small.
#[verifier::external_body]
fn gen_range(low: usize, high: usize) -> (r: usize)
    requires
        low < high <= 1024,
    ensures
        low <= r < high,
{
    macroquad::rand::gen_range(low, high)
}

/// A tetromino: the position of its shape-local origin, which catalog shape
/// it is, and its rotation state. Its cells are derived, not stored.
#[derive(Clone, Copy, Debug, PartialEq, Eq)]
pub struct Piece {
    pub x: i8,
    pub y: i8,
    pub shape_index: usize,
    pub rotation: u8,
}

impl Piece {
    /// Shape index names a catalog entry and rotation is one of four states.
    pub open spec fn wf(self) -> bool {
        self.shape_index < SHAPE_COUNT && self.rotation < 4
    }

    /// Local offset of cell `i` after rotation.
    pub open spec fn offset(self, i: int) -> (int, int) {
        rotate_offset(shape_offset(self.shape_index as int, i), self.rotation as int)
    }

    /// Absolute board coordinate `(x, y)` of cell `i`.
    pub open spec fn cell(self, i: int) -> (int, int) {
        (self.x + self.offset(i).0, self.y + self.offset(i).1)
    }

    /// The four absolute cells, in catalog order.
    pub open spec fn cells(self) -> Seq<(int, int)> {
        Seq::new(4, |i: int| self.cell(i))
    }

    /// Cell `i` lies on the visible grid.
    pub open spec fn in_grid(self, i: int) -> bool {
        0 <= self.cell(i).0 < BOARD_WIDTH && 0 <= self.cell(i).1 < BOARD_HEIGHT
    }

    /// Some cell of the piece is outside the walls, below the floor, or on a
    /// locked cell of the visible grid.
    pub open spec fn collides(self, b: Seq<Seq<u8>>) -> bool {
        exists|i: int| 0 <= i < 4 && #[trigger] blocked(b, self.cell(i))
    }

    /// The piece moved by `(dx, dy)`.
    pub open spec fn translated(self, dx: int, dy: int) -> Piece {
        Piece { x: (self.x + dx) as i8, y: (self.y + dy) as i8, ..self }
    }

    /// The piece one quarter turn further, without moving it.
    pub open spec fn turned(self) -> Piece {
        Piece { rotation: ((self.rotation + 1) % 4) as u8, ..self }
    }

    /// A fresh piece of `shape` at the spawn point: horizontal center, top row.
    pub open spec fn spawned(shape: usize) -> Piece {
        Piece { x: (BOARD_WIDTH / 2) as i8, y: 0, shape_index: shape, rotation: 0 }
    }

    /// A piece is free exactly when each of its four cells lies between the
    /// side walls and above the floor and, where it is on the visible grid,
    /// on an empty cell.
    pub proof fn lemma_collides_iff(self, b: Seq<Seq<u8>>)
        ensures
            !self.collides(b) <==> forall|i: int|
                0 <= i < 4 ==> {
                    &&& 0 <= #[trigger] self.cell(i).0 < BOARD_WIDTH
                    &&& self.cell(i).1 < BOARD_HEIGHT
                    &&& (self.cell(i).1 >= 0 ==> b[self.cell(i).1][self.cell(i).0] == 0)
                },
    {
        if !self.collides(b) {
            assert forall|i: int| 0 <= i < 4 implies {
                &&& 0 <= #[trigger] self.cell(i).0 < BOARD_WIDTH
                &&& self.cell(i).1 < BOARD_HEIGHT
                &&& (self.cell(i).1 >= 0 ==> b[self.cell(i).1][self.cell(i).0] == 0)
            } by {
                assert(!blocked(b, self.cell(i)));
            }
        }
    }

    /// A clockwise turn applies the quarter-turn transform to every cell
    /// offset, and four turns give back the same piece and so the same cells.
    pub proof fn lemma_four_turns(self)
        requires
            self.wf(),
        ensures
            forall|i: int| #[trigger] self.turned().offset(i) == rotate_offset(self.offset(i), 1),
            self.turned().turned().turned().turned() == self,
            self.turned().turned().turned().turned().cells() == self.cells(),
    {
        assert forall|i: int| #[trigger] self.turned().offset(i) == rotate_offset(self.offset(i), 1) by {
            crate::shapes::lemma_rotation_compose(
                shape_offset(self.shape_index as int, i),
                self.rotation as int,
                1,
            );
        }
    }

    /// A fresh piece of a randomly drawn shape at the spawn point.
    pub fn new() -> (p: Piece)
        ensures
            p.wf(),
            p == Piece::spawned(p.shape_index),
    {
        let shape_index = gen_range(0, SHAPE_COUNT);
        Piece::spawn(shape_index)
    }

    /// A fresh piece of the given shape at the spawn point.
    pub fn spawn(shape_index: usize) -> (p: Piece)
        ensures
            p == Piece::spawned(shape_index),
    {
        Piece { x: (BOARD_WIDTH / 2) as i8, y: 0, shape_index, rotation: 0 }
    }

    /// The catalog offsets of this piece's shape, unrotated.
    pub fn shape(&self) -> (r: [(i8, i8); 4])
        requires
            self.wf(),
        ensures
            forall|i: int|
                0 <= i < 4 ==> (#[trigger] r@[i].0 as int, r@[i].1 as int) == shape_offset(
                    self.shape_index as int,
                    i,
                ),
    {
        [
            shape_cell(self.shape_index, 0),
            shape_cell(self.shape_index, 1),
            shape_cell(self.shape_index, 2),
            shape_cell(self.shape_index, 3),
        ]
    }

    /// The four local offsets after rotation.
    pub fn rotated_shape(&self) -> (r: Vec<(i8, i8)>)
        requires
            self.wf(),
        ensures
            r@.len() == 4,
            forall|i: int| 0 <= i < 4 ==> (#[trigger] r@[i].0 as int, r@[i].1 as int) == self.offset(i),
    {
        let base = self.shape();
        let mut out: Vec<(i8, i8)> = Vec::new();
        let mut k: usize = 0;
        while k < 4
            invariant
                self.wf(),
                k <= 4,
                out@.len() == k,
                forall|i: int|
                    0 <= i < 4 ==> (#[trigger] base@[i].0 as int, base@[i].1 as int) == shape_offset(
                        self.shape_index as int,
                        i,
                    ),
                forall|i: int| 0 <= i < k ==> (#[trigger] out@[i].0 as int, out@[i].1 as int) == self.offset(i),
            decreases 4 - k,
        {
            proof {
                crate::shapes::lemma_shape_offset_bounds(self.shape_index as int, k as int);
            }
            let o = base[k];
            assert((o.0 as int, o.1 as int) == shape_offset(self.shape_index as int, k as int));
            out.push(rotate_offset_exec(o, self.rotation));
            k = k + 1;
        }
        out
    }

    /// The four absolute cells, in catalog order.
    pub fn absolute_cells(&self) -> (r: Vec<(i16, i16)>)
        requires
            self.wf(),
        ensures
            r@.len() == 4,
            forall|i: int| 0 <= i < 4 ==> (#[trigger] r@[i].0 as int, r@[i].1 as int) == self.cell(i),
    {
        let offs = self.rotated_shape();
        let mut out: Vec<(i16, i16)> = Vec::new();
        let mut k: usize = 0;
        while k < 4
            invariant
                self.wf(),
                k <= 4,
                offs@.len() == 4,
                forall|i: int| 0 <= i < 4 ==> (#[trigger] offs@[i].0 as int, offs@[i].1 as int) == self.offset(i),
                out@.len() == k,
                forall|i: int| 0 <= i < k ==> (#[trigger] out@[i].0 as int, out@[i].1 as int) == self.cell(i),
            decreases 4 - k,
        {
            proof {
                lemma_rotated_offset_bounds(self.shape_index as int, k as int, self.rotation as int);
            }
            let (dx, dy) = offs[k];
            out.push((self.x as i16 + dx as i16, self.y as i16 + dy as i16));
            k = k + 1;
        }
        out
    }

    /// Whether the piece collides with the walls, the floor, or a locked cell.
    pub fn check_collision(&self, board: &Board) -> (r: bool)
        requires
            self.wf(),
        ensures
            r == self.collides(board@),
    {
        let cells = self.absolute_cells();
        let mut k: usize = 0;
        while k < 4
            invariant
                k <= 4,
                cells@.len() == 4,
                forall|i: int| 0 <= i < 4 ==> (#[trigger] cells@[i].0 as int, cells@[i].1 as int) == self.cell(i),
                forall|i: int| 0 <= i < k ==> !blocked(board@, #[trigger] self.cell(i)),
            decreases 4 - k,
        {
            let (x, y) = cells[k];
            assert(self.cell(k as int) == (x as int, y as int));
            if x < 0 || x >= BOARD_WIDTH as i16 || y >= BOARD_HEIGHT as i16 || (y >= 0 && board.get(x as usize, y as usize) != 0) {
                assert(blocked(board@, self.cell(k as int)));
                return true;
            }
            k = k + 1;
        }
        false
    }
}

} // verus!
