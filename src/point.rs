use vstd::prelude::*;

verus! {

/// Number of lines on each side of the board.
pub const SIZE: usize = 19;

/// Distance between two vertically adjacent vertices in the padded array.
pub const STRIDE: usize = 21;

/// Whether index `i` of the padded vertex array is a playable intersection.
/// The array is a 21 x 21 grid whose outer ring is padding.
pub open spec fn is_playable(i: int) -> bool {
    0 <= i < 441 && 1 <= i / 21 <= 19 && 1 <= i % 21 <= 19
}

/// The index of intersection `(x, y)` in the padded array.
pub open spec fn index_of(x: int, y: int) -> int {
    (y + 1) * 21 + (x + 1)
}

/// An intersection of the board, as an index into the padded vertex array.
#[derive(Clone, Copy, Debug, PartialEq, Eq, Structural)]
pub struct Point {
    pub index: usize,
}

impl Point {
    /// Size of the padded vertex array.
    pub const MAX: usize = 441;

    /// Returns the intersection at column `x` and row `y`.
    pub fn new(x: usize, y: usize) -> (r: Point)
        requires
            x < 19,
            y < 19,
        ensures
            r.index == index_of(x as int, y as int),
            is_playable(r.index as int),
    {
        Point { index: (y + 1) * STRIDE + (x + 1) }
    }

    /// Returns the sentinel point, which is no playable intersection.
    pub fn default() -> (r: Point)
        ensures
            r.index == 0,
            !is_playable(r.index as int),
    {
        Point { index: 0 }
    }

    /// Returns the index of this point in the padded vertex array.
    pub fn to_i(self) -> (r: usize)
        ensures
            r == self.index,
    {
        self.index
    }

    /// Returns whether `i` is a playable intersection.
    pub fn playable(i: usize) -> (r: bool)
        ensures
            r == is_playable(i as int),
    {
        i < 441 && 1 <= i / 21 && i / 21 <= 19 && 1 <= i % 21 && i % 21 <= 19
    }

    /// Returns every playable intersection in increasing order of index.
    pub fn all() -> (r: Vec<Point>)
        ensures
            r@.len() == 361,
            forall|k: int| 0 <= k < r@.len() ==> is_playable(#[trigger] r@[k].index as int),
            forall|i: int| is_playable(i) ==> exists|k: int| 0 <= k < r@.len() && r@[k].index == i,
    {
        let mut out: Vec<Point> = Vec::new();
        let mut y: usize = 0;
        while y < SIZE
            invariant
                y <= 19,
                out@.len() == 19 * y,
                forall|k: int| 0 <= k < out@.len() ==> is_playable(#[trigger] out@[k].index as int),
                forall|k: int| 0 <= k < out@.len() ==> #[trigger] out@[k].index == index_of(k % 19, k / 19),
            decreases 19 - y,
        {
            let mut x: usize = 0;
            while x < SIZE
                invariant
                    y < 19,
                    x <= 19,
                    out@.len() == 19 * y + x,
                    forall|k: int| 0 <= k < out@.len() ==> is_playable(#[trigger] out@[k].index as int),
                    forall|k: int| 0 <= k < out@.len() ==> #[trigger] out@[k].index == index_of(k % 19, k / 19),
                decreases 19 - x,
            {
                let p = Point::new(x, y);
                out.push(p);
                x += 1;
            }
            y += 1;
        }
        proof {
            assert forall|i: int| is_playable(i) implies exists|k: int| 0 <= k < out@.len() && out@[k].index == i by {
                let k = (i / 21 - 1) * 19 + (i % 21 - 1);
                assert(out@[k].index == index_of(k % 19, k / 19));
            }
        }
        out
    }
}

/// The `k`-th playable intersection, row by row.
pub open spec fn nth_point(k: int) -> int {
    index_of(k % 19, k / 19)
}

impl Point {
    /// Returns the `k`-th playable intersection, row by row.
    pub fn nth(k: usize) -> (r: Point)
        requires
            k < 361,
        ensures
            r.index == nth_point(k as int),
            is_playable(r.index as int),
    {
        Point::new(k % SIZE, k / SIZE)
    }
}

} // verus!
