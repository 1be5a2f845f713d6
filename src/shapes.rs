use vstd::prelude::*;

verus! {

/// Number of tetromino kinds in the catalog.
pub const SHAPE_COUNT: usize = 7;

/// Local offset `(dx, dy)` of cell `i` (0..4) of shape `s` (0..7), before
/// rotation. Shapes in order: O, I, T, S, Z, L, J.
pub open spec fn shape_offset(s: int, i: int) -> (int, int) {
    if s == 0 {
        if i == 0 { (0, 0) } else if i == 1 { (1, 0) } else if i == 2 { (0, 1) } else { (1, 1) }
    } else if s == 1 {
        if i == 0 { (0, 0) } else if i == 1 { (0, 1) } else if i == 2 { (0, 2) } else { (0, 3) }
    } else if s == 2 {
        if i == 0 { (0, 0) } else if i == 1 { (1, 0) } else if i == 2 { (2, 0) } else { (1, 1) }
    } else if s == 3 {
        if i == 0 { (0, 0) } else if i == 1 { (1, 0) } else if i == 2 { (1, 1) } else { (2, 1) }
    } else if s == 4 {
        if i == 0 { (1, 0) } else if i == 1 { (2, 0) } else if i == 2 { (0, 1) } else { (1, 1) }
    } else if s == 5 {
        if i == 0 { (0, 0) } else if i == 1 { (0, 1) } else if i == 2 { (0, 2) } else { (1, 2) }
    } else {
        if i == 0 { (1, 0) } else if i == 1 { (1, 1) } else if i == 2 { (1, 2) } else { (0, 2) }
    }
}

/// Quarter-turn transform for rotation state `r` about the shape-local origin.
pub open spec fn rotate_offset(o: (int, int), r: int) -> (int, int) {
    if r == 0 {
        o
    } else if r == 1 {
        (o.1, -o.0)
    } else if r == 2 {
        (-o.0, -o.1)
    } else {
        (-o.1, o.0)
    }
}

/// Every catalog offset lies in `[0, 3] x [0, 3]`.
pub proof fn lemma_shape_offset_bounds(s: int, i: int)
    ensures
        0 <= shape_offset(s, i).0 <= 3,
        0 <= shape_offset(s, i).1 <= 3,
{
}

/// Rotation keeps both coordinates within `[-3, 3]` for catalog offsets.
pub proof fn lemma_rotated_offset_bounds(s: int, i: int, r: int)
    ensures
        -3 <= rotate_offset(shape_offset(s, i), r).0 <= 3,
        -3 <= rotate_offset(shape_offset(s, i), r).1 <= 3,
{
    lemma_shape_offset_bounds(s, i);
}

/// Rotation states act as a group of order four on offsets: state 0 is the
/// identity, and applying state `a` then state `b` is applying state
/// `(a + b) mod 4`.
pub proof fn lemma_rotation_compose(o: (int, int), a: int, b: int)
    requires
        0 <= a < 4,
        0 <= b < 4,
    ensures
        rotate_offset(o, 0) == o,
        rotate_offset(rotate_offset(o, a), b) == rotate_offset(o, (a + b) % 4),
{
}

/// The catalog entry: local offset of cell `i` of shape `s`.
pub fn shape_cell(s: usize, i: usize) -> (r: (i8, i8))
    requires
        s < SHAPE_COUNT,
        i < 4,
    ensures
        (r.0 as int, r.1 as int) == shape_offset(s as int, i as int),
{
    let cells: [(i8, i8); 4] = if s == 0 {
        [(0, 0), (1, 0), (0, 1), (1, 1)]
    } else if s == 1 {
        [(0, 0), (0, 1), (0, 2), (0, 3)]
    } else if s == 2 {
        [(0, 0), (1, 0), (2, 0), (1, 1)]
    } else if s == 3 {
        [(0, 0), (1, 0), (1, 1), (2, 1)]
    } else if s == 4 {
        [(1, 0), (2, 0), (0, 1), (1, 1)]
    } else if s == 5 {
        [(0, 0), (0, 1), (0, 2), (1, 2)]
    } else {
        [(1, 0), (1, 1), (1, 2), (0, 2)]
    };
    cells[i]
}

/// Applies the transform of rotation state `r` to a local offset.
pub fn rotate_offset_exec(o: (i8, i8), r: u8) -> (res: (i8, i8))
    requires
        -3 <= o.0 <= 3,
        -3 <= o.1 <= 3,
        r < 4,
    ensures
        (res.0 as int, res.1 as int) == rotate_offset((o.0 as int, o.1 as int), r as int),
{
    let (x, y) = o;
    if r == 0 {
        (x, y)
    } else if r == 1 {
        (y, -x)
    } else if r == 2 {
        (-x, -y)
    } else {
        (-y, x)
    }
}

} // verus!
