use vstd::prelude::*;

use crate::piece::Piece;
use crate::shapes::SHAPE_COUNT;

verus! {

/// Number of columns of the playfield.
pub const BOARD_WIDTH: usize = 10;

/// Number of rows of the playfield; row 0 is the top.
pub const BOARD_HEIGHT: usize = 20;

/// The grid of locked cells, row-major, row 0 at the top. A cell holds 0 when
/// empty, or `shape_index + 1` of the piece that was locked there.
#[derive(Clone, Copy, Debug, PartialEq, Eq)]
pub struct Board {
    pub cells: [[u8; BOARD_WIDTH]; BOARD_HEIGHT],
}

impl View for Board {
    type V = Seq<Seq<u8>>;

    open spec fn view(&self) -> Seq<Seq<u8>> {
        Seq::new(BOARD_HEIGHT as nat, |y: int| self.cells@[y]@)
    }
}

/// A row with every cell empty.
pub open spec fn blank_row() -> Seq<u8> {
    Seq::new(BOARD_WIDTH as nat, |x: int| 0u8)
}

/// A grid of `BOARD_HEIGHT` blank rows.
pub open spec fn blank_grid() -> Seq<Seq<u8>> {
    Seq::new(BOARD_HEIGHT as nat, |y: int| blank_row())
}

/// `n` blank rows.
pub open spec fn blank_rows(n: nat) -> Seq<Seq<u8>> {
    Seq::new(n, |y: int| blank_row())
}

/// A row is full when none of its cells is empty.
pub open spec fn row_full(r: Seq<u8>) -> bool {
    forall|x: int| 0 <= x < r.len() ==> r[x] != 0
}

/// The rows that are not full, in their original order.
pub open spec fn kept_rows(rows: Seq<Seq<u8>>) -> Seq<Seq<u8>>
    decreases rows.len(),
{
    if rows.len() == 0 {
        rows
    } else if row_full(rows.last()) {
        kept_rows(rows.drop_last())
    } else {
        kept_rows(rows.drop_last()).push(rows.last())
    }
}

/// How many rows are full.
pub open spec fn count_full(rows: Seq<Seq<u8>>) -> nat
    decreases rows.len(),
{
    if rows.len() == 0 {
        0
    } else if row_full(rows.last()) {
        count_full(rows.drop_last()) + 1
    } else {
        count_full(rows.drop_last())
    }
}

/// The grid after a line clear: the full rows are removed, the rows above
/// them move down, and as many blank rows enter at the top.
pub open spec fn cleared(rows: Seq<Seq<u8>>) -> Seq<Seq<u8>> {
    blank_rows(count_full(rows)) + kept_rows(rows)
}

/// Whether absolute cell `(x, y)` is unavailable to a piece: outside the side
/// walls, below the floor, or a locked cell of the visible grid. Cells above
/// row 0 are never blocked by grid contents.
pub open spec fn blocked(b: Seq<Seq<u8>>, c: (int, int)) -> bool {
    c.0 < 0 || c.0 >= BOARD_WIDTH || c.1 >= BOARD_HEIGHT || (c.1 >= 0 && b[c.1][c.0] != 0)
}

/// The grid with cell `(x, y)` set to `v`.
pub open spec fn set_cell(b: Seq<Seq<u8>>, c: (int, int), v: u8) -> Seq<Seq<u8>> {
    b.update(c.1, b[c.1].update(c.0, v))
}

/// The grid with the first `k` cells of `p` written with its 1-based shape id.
pub open spec fn stamp(b: Seq<Seq<u8>>, p: Piece, k: nat) -> Seq<Seq<u8>>
    decreases k,
{
    if k == 0 {
        b
    } else {
        set_cell(stamp(b, p, (k - 1) as nat), p.cell(k - 1), (p.shape_index + 1) as u8)
    }
}

/// The grid after piece `p` is locked into it.
pub open spec fn locked(b: Seq<Seq<u8>>, p: Piece) -> Seq<Seq<u8>> {
    stamp(b, p, 4)
}

/// A grid of the board's dimensions.
pub open spec fn grid_shaped(b: Seq<Seq<u8>>) -> bool {
    &&& b.len() == BOARD_HEIGHT
    &&& forall|y: int| 0 <= y < b.len() ==> #[trigger] b[y].len() == BOARD_WIDTH
}

/// Every cell of the grid is empty or names a catalog shape.
pub open spec fn grid_wf(b: Seq<Seq<u8>>) -> bool {
    &&& grid_shaped(b)
    &&& forall|y: int, x: int|
        0 <= y < BOARD_HEIGHT && 0 <= x < BOARD_WIDTH ==> #[trigger] b[y][x] <= SHAPE_COUNT
}

/// The kept rows and the full rows together account for every row; each
/// kept row is not full and is one of the original rows.
pub proof fn lemma_kept_count(rows: Seq<Seq<u8>>)
    ensures
        kept_rows(rows).len() + count_full(rows) == rows.len(),
        forall|i: int| 0 <= i < kept_rows(rows).len() ==> !row_full(#[trigger] kept_rows(rows)[i]),
        forall|i: int|
            0 <= i < kept_rows(rows).len() ==> exists|j: int|
                0 <= j < rows.len() && #[trigger] kept_rows(rows)[i] == rows[j],
    decreases rows.len(),
{
    if rows.len() > 0 {
        lemma_kept_count(rows.drop_last());
        let k = kept_rows(rows);
        assert forall|i: int| 0 <= i < k.len() implies exists|j: int|
            0 <= j < rows.len() && #[trigger] k[i] == rows[j] by {
            if i < kept_rows(rows.drop_last()).len() {
                let j = choose|j: int|
                    0 <= j < rows.drop_last().len() && kept_rows(rows.drop_last())[i]
                        == rows.drop_last()[j];
                assert(k[i] == rows[j]);
            } else {
                assert(k[i] == rows[rows.len() - 1]);
            }
        }
    }
}

/// A line clear keeps the grid's shape and every cell a valid id.
pub proof fn lemma_cleared_wf(rows: Seq<Seq<u8>>)
    requires
        grid_wf(rows),
    ensures
        grid_wf(cleared(rows)),
{
    lemma_kept_count(rows);
    let c = cleared(rows);
    let n = count_full(rows);
    let k = kept_rows(rows);
    assert forall|y: int| 0 <= y < c.len() implies #[trigger] c[y].len() == BOARD_WIDTH
        && (forall|x: int| 0 <= x < BOARD_WIDTH ==> #[trigger] c[y][x] <= SHAPE_COUNT) by {
        if y >= n {
            let j = choose|j: int| 0 <= j < rows.len() && #[trigger] k[y - n] == rows[j];
            assert(c[y] == rows[j]);
        }
    }
}

/// Clearing distributes over splitting the rows: the rows kept from `a + b`
/// are those kept from `a` followed by those kept from `b`, and the full rows
/// add up.
pub proof fn lemma_clear_split(a: Seq<Seq<u8>>, b: Seq<Seq<u8>>)
    ensures
        kept_rows(a + b) == kept_rows(a) + kept_rows(b),
        count_full(a + b) == count_full(a) + count_full(b),
    decreases b.len(),
{
    if b.len() == 0 {
        assert(a + b =~= a);
        assert(kept_rows(a) + kept_rows(b) =~= kept_rows(a));
    } else {
        lemma_clear_split(a, b.drop_last());
        assert((a + b).drop_last() =~= a + b.drop_last());
        assert((a + b).last() == b.last());
        if !row_full(b.last()) {
            assert(kept_rows(a) + kept_rows(b.drop_last()).push(b.last()) =~= (kept_rows(a)
                + kept_rows(b.drop_last())).push(b.last()));
        }
    }
}

/// Rows of which none is full are all kept.
pub proof fn lemma_no_full_rows(rows: Seq<Seq<u8>>)
    requires
        forall|i: int| 0 <= i < rows.len() ==> !row_full(#[trigger] rows[i]),
    ensures
        count_full(rows) == 0,
        kept_rows(rows) == rows,
    decreases rows.len(),
{
    if rows.len() > 0 {
        let d = rows.drop_last();
        assert forall|i: int| 0 <= i < d.len() implies !row_full(#[trigger] d[i]) by {
            assert(d[i] == rows[i]);
        }
        lemma_no_full_rows(d);
        assert(!row_full(rows[rows.len() - 1]));
        assert(d.push(rows.last()) =~= rows);
    }
}

/// A line clear on rows of which none is full changes nothing.
pub proof fn lemma_clear_without_full_rows(rows: Seq<Seq<u8>>)
    requires
        count_full(rows) == 0,
    ensures
        cleared(rows) == rows,
{
    lemma_kept_count(rows);
    assert forall|i: int| 0 <= i < rows.len() implies #[trigger] kept_rows(rows)[i] == rows[i] by {
        lemma_kept_prefix_when_none_full(rows, i);
    }
    assert(kept_rows(rows) =~= rows);
    assert(cleared(rows) =~= rows);
}

proof fn lemma_kept_prefix_when_none_full(rows: Seq<Seq<u8>>, i: int)
    requires
        count_full(rows) == 0,
        0 <= i < rows.len(),
    ensures
        kept_rows(rows).len() == rows.len(),
        kept_rows(rows)[i] == rows[i],
    decreases rows.len(),
{
    lemma_kept_count(rows);
    let d = rows.drop_last();
    if i < rows.len() - 1 {
        lemma_kept_prefix_when_none_full(d, i);
    }
}

/// A blank row is never full.
pub proof fn lemma_blank_row_not_full()
    ensures
        !row_full(blank_row()),
{
    assert(blank_row()[0] == 0);
}

/// Clearing is idempotent: right after a clear no row is full, and a second
/// clear changes nothing.
pub proof fn lemma_clear_idempotent(rows: Seq<Seq<u8>>)
    ensures
        count_full(cleared(rows)) == 0,
        cleared(cleared(rows)) == cleared(rows),
{
    lemma_kept_count(rows);
    lemma_blank_row_not_full();
    let c = cleared(rows);
    let n = count_full(rows);
    assert forall|i: int| 0 <= i < c.len() implies !row_full(#[trigger] c[i]) by {
        if i >= n {
            assert(c[i] == kept_rows(rows)[i - n]);
        }
    }
    lemma_no_full_rows(c);
    lemma_clear_without_full_rows(c);
}

/// A line clear is order-preserving: the top rows, as many as were full,
/// become blank, and each row that is not full moves down by the number of
/// full rows below it.
pub proof fn lemma_clear_shifts_rows(rows: Seq<Seq<u8>>, y: int)
    requires
        0 <= y < rows.len(),
        !row_full(rows[y]),
    ensures
        forall|i: int| 0 <= i < count_full(rows) ==> #[trigger] cleared(rows)[i] == blank_row(),
        y + count_full(rows.subrange(y + 1, rows.len() as int)) < rows.len(),
        cleared(rows)[y + count_full(rows.subrange(y + 1, rows.len() as int))] == rows[y],
{
    let a = rows.take(y);
    let m = seq![rows[y]];
    let b = rows.subrange(y + 1, rows.len() as int);
    assert(rows =~= a + m + b);
    lemma_clear_split(a + m, b);
    lemma_clear_split(a, m);
    assert(m.drop_last() =~= Seq::<Seq<u8>>::empty());
    assert(m.last() == rows[y]);
    assert(kept_rows(m.drop_last()).len() == 0);
    assert(kept_rows(m) =~= m);
    lemma_kept_count(a);
    lemma_kept_count(b);
    lemma_kept_count(rows);
    let k = kept_rows(rows);
    assert(k == kept_rows(a) + m + kept_rows(b));
    assert(k[kept_rows(a).len() as int] == rows[y]);
}

impl Board {
    /// Every cell is empty or holds a valid 1-based shape id.
    pub open spec fn wf(&self) -> bool {
        grid_wf(self@)
    }

    /// An empty board.
    pub fn new() -> (b: Board)
        ensures
            b@ == blank_grid(),
            b.wf(),
    {
        let row = [0u8; BOARD_WIDTH];
        assert(row@ =~= blank_row());
        let b = Board { cells: [row; BOARD_HEIGHT] };
        assert(forall|y: int| 0 <= y < BOARD_HEIGHT ==> #[trigger] b.cells@[y] == row);
        assert(b@ =~= blank_grid());
        b
    }

    /// The value at column `x`, row `y`.
    pub fn get(&self, x: usize, y: usize) -> (v: u8)
        requires
            x < BOARD_WIDTH,
            y < BOARD_HEIGHT,
        ensures
            v == self@[y as int][x as int],
    {
        self.cells[y][x]
    }

    /// Whether row `y` has no empty cell.
    pub fn is_row_full(&self, y: usize) -> (r: bool)
        requires
            y < BOARD_HEIGHT,
        ensures
            r == row_full(self@[y as int]),
    {
        let row = self.cells[y];
        let mut x: usize = 0;
        while x < BOARD_WIDTH
            invariant
                x <= BOARD_WIDTH,
                row@ == self@[y as int],
                forall|i: int| 0 <= i < x ==> row@[i] != 0,
            decreases BOARD_WIDTH - x,
        {
            if row[x] == 0 {
                return false;
            }
            x = x + 1;
        }
        true
    }

    /// Moves rows `1..=r` down by one and blanks row 0; row `r` is
    /// overwritten and the rows below it are kept.
    fn shift_down_onto(&mut self, r: usize)
        requires
            r < BOARD_HEIGHT,
        ensures
            final(self)@ == blank_rows(1) + old(self)@.take(r as int) + old(self)@.skip(r + 1),
    {
        let ghost before = self@;
        let ghost rows = self.cells@;
        let mut y2: usize = r;
        while y2 > 0
            invariant
                y2 <= r < BOARD_HEIGHT,
                forall|i: int| y2 < i <= r ==> #[trigger] self.cells@[i] == rows[i - 1],
                forall|i: int| 0 <= i <= y2 ==> #[trigger] self.cells@[i] == rows[i],
                forall|i: int| r < i < BOARD_HEIGHT ==> #[trigger] self.cells@[i] == rows[i],
            decreases y2,
        {
            self.cells[y2] = self.cells[y2 - 1];
            y2 = y2 - 1;
        }
        let row = [0u8; BOARD_WIDTH];
        assert(row@ =~= blank_row());
        self.cells[0] = row;
        let ghost expect = blank_rows(1) + before.take(r as int) + before.skip(r + 1);
        assert forall|i: int| 0 <= i < BOARD_HEIGHT implies #[trigger] self@[i] == expect[i] by {
            if 0 < i <= r {
                assert(self.cells@[i] == rows[i - 1]);
            } else if i > r {
                assert(self.cells@[i] == rows[i]);
            }
        }
        assert(self@ =~= expect);
    }

    /// Removes every full row; the rows above each one move down and blank
    /// rows enter at the top. Returns the number of rows removed.
    ///
    /// Rows are scanned from the bottom up. A full row is removed by moving
    /// every row above it down one and blanking row 0, and the same index is
    /// examined again, since a new row has moved into it.
    pub fn clear_lines(&mut self) -> (lines: u8)
        ensures
            lines as nat == count_full(old(self)@),
            final(self)@ == cleared(old(self)@),
    {
        let ghost orig = self@;
        let ghost mut u: int = BOARD_HEIGHT as int;
        let ghost mut b: nat = 0;
        let mut lines: u8 = 0;
        let mut y: usize = BOARD_HEIGHT;
        proof {
            assert(orig.subrange(u, BOARD_HEIGHT as int).len() == 0);
            assert(self@.take(y as int) =~= blank_rows(0) + orig.take(u));
            assert(self@.skip(y as int) =~= blank_rows(0) + kept_rows(
                orig.subrange(u, BOARD_HEIGHT as int),
            ));
        }
        while y > 0
            invariant
                0 <= u <= y <= BOARD_HEIGHT,
                self@.len() == BOARD_HEIGHT,
                orig.len() == BOARD_HEIGHT,
                lines as nat == count_full(orig.subrange(u, BOARD_HEIGHT as int)),
                lines as int + u <= BOARD_HEIGHT,
                self@.take(y as int) == blank_rows((y - u) as nat) + orig.take(u),
                self@.skip(y as int) == blank_rows(b) + kept_rows(
                    orig.subrange(u, BOARD_HEIGHT as int),
                ),
                b > 0 ==> u == 0,
            decreases y + u,
        {
            let r = y - 1;
            let full = self.is_row_full(r);
            let ghost cur = self@;
            let ghost suffix = orig.subrange(u, BOARD_HEIGHT as int);
            proof {
                lemma_blank_row_not_full();
                lemma_kept_count(suffix);
                assert(cur[r as int] == cur.take(y as int)[r as int]);
                if u > 0 {
                    assert(cur[r as int] == orig[u - 1]);
                } else {
                    assert(cur[r as int] == blank_row());
                }
            }
            if full {
                proof {
                    let row = seq![orig[u - 1]];
                    let longer = orig.subrange(u - 1, BOARD_HEIGHT as int);
                    assert(longer =~= row + suffix);
                    lemma_clear_split(row, suffix);
                    assert(row.drop_last().len() == 0);
                    assert(row.last() == orig[u - 1]);
                    assert(kept_rows(row.drop_last()).len() == 0);
                    assert(count_full(row.drop_last()) == 0);
                    assert(kept_rows(row).len() == 0);
                    assert(kept_rows(row) + kept_rows(suffix) =~= kept_rows(suffix));
                }
                lines = lines + 1;
                self.shift_down_onto(r);
                proof {
                    let nu = u - 1;
                    assert(self@.take(y as int) =~= blank_rows((y - nu) as nat) + orig.take(nu)) by {
                        assert forall|i: int| 0 <= i < y implies #[trigger] self@.take(y as int)[i]
                            == (blank_rows((y - nu) as nat) + orig.take(nu))[i] by {
                            if i > 0 {
                                assert(self@[i] == cur.take(r as int)[i - 1]);
                                assert(cur.take(r as int)[i - 1] == cur.take(y as int)[i - 1]);
                            }
                        }
                    }
                    assert(self@.skip(y as int) =~= cur.skip(y as int));
                    u = nu;
                }
            } else {
                y = r;
                proof {
                    if u > 0 {
                        let row = seq![orig[u - 1]];
                        let longer = orig.subrange(u - 1, BOARD_HEIGHT as int);
                        assert(longer =~= row + suffix);
                        lemma_clear_split(row, suffix);
                        assert(row.drop_last().len() == 0);
                        assert(row.last() == orig[u - 1]);
                        assert(kept_rows(row.drop_last()).len() == 0);
                        assert(count_full(row.drop_last()) == 0);
                        assert(kept_rows(row) =~= row);
                        assert(self@.take(y as int) =~= blank_rows((y - (u - 1)) as nat) + orig.take(
                            u - 1,
                        )) by {
                            assert forall|i: int| 0 <= i < y implies #[trigger] self@.take(y as int)[i]
                                == cur.take(y + 1)[i] by {}
                        }
                        assert(self@.skip(y as int) =~= blank_rows(b) + kept_rows(longer)) by {
                            assert(self@.skip(y as int) =~= seq![cur[r as int]] + cur.skip(y + 1));
                        }
                        u = u - 1;
                    } else {
                        assert(self@.take(y as int) =~= blank_rows((y - u) as nat) + orig.take(u)) by {
                            assert forall|i: int| 0 <= i < y implies #[trigger] self@.take(y as int)[i]
                                == cur.take(y + 1)[i] by {}
                        }
                        assert(self@.skip(y as int) =~= blank_rows(b + 1) + kept_rows(suffix)) by {
                            assert(self@.skip(y as int) =~= seq![cur[r as int]] + cur.skip(y + 1));
                        }
                        b = b + 1;
                    }
                }
            }
        }
        proof {
            assert(orig.subrange(0, BOARD_HEIGHT as int) =~= orig);
            assert(self@ =~= self@.skip(0));
            lemma_kept_count(orig);
            assert(b == count_full(orig));
        }
        lines
    }

    /// Writes each cell of `piece` with the piece's 1-based shape id.
    pub fn place(&mut self, piece: &Piece)
        requires
            piece.wf(),
            forall|i: int| 0 <= i < 4 ==> piece.in_grid(i),
        ensures
            final(self)@ == locked(old(self)@, *piece),
    {
        let ghost start = self@;
        let id: u8 = (piece.shape_index + 1) as u8;
        let cells = piece.absolute_cells();
        let mut k: usize = 0;
        while k < 4
            invariant
                k <= 4,
                piece.wf(),
                id as int == piece.shape_index + 1,
                forall|i: int| 0 <= i < 4 ==> piece.in_grid(i),
                cells@.len() == 4,
                forall|i: int|
                    0 <= i < 4 ==> (cells@[i].0 as int, cells@[i].1 as int) == #[trigger] piece.cell(i),
                self@ == stamp(start, *piece, k as nat),
            decreases 4 - k,
        {
            let (cx, cy) = cells[k];
            assert(piece.in_grid(k as int));
            let mut row = self.cells[cy as usize];
            row[cx as usize] = id;
            self.cells[cy as usize] = row;
            assert(self@ =~= set_cell(stamp(start, *piece, k as nat), piece.cell(k as int), id));
            k = k + 1;
        }
    }
}

} // verus!
