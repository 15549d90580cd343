use vstd::arithmetic::div_mod::lemma_fundamental_div_mod;
use vstd::arithmetic::div_mod::lemma_fundamental_div_mod_converse;
use vstd::arithmetic::div_mod::lemma_mod_pos_bound;
use vstd::prelude::*;

verus! {

/// A cell position in world coordinates.
#[derive(Clone, Copy, Debug, PartialEq, Eq, Structural)]
pub struct Point {
    pub x: i32,
    pub y: i32,
}

/// The integer midpoint of `a` and `b`, rounded towards zero.
pub open spec fn midpoint(a: int, b: int) -> int {
    if a + b >= 0 {
        (a + b) / 2
    } else {
        -((-(a + b)) / 2)
    }
}

impl Point {
    /// The point with the given coordinates.
    pub fn new(x: i32, y: i32) -> (p: Point)
        ensures
            p.x == x,
            p.y == y,
    {
        Point { x, y }
    }

    /// The origin.
    pub fn zero() -> (p: Point)
        ensures
            p.x == 0,
            p.y == 0,
    {
        Point { x: 0, y: 0 }
    }

    /// Whether the component-wise sum of `self` and `delta` is representable.
    pub open spec fn can_move_by(self, delta: Point) -> bool {
        &&& i32::MIN <= self.x + delta.x <= i32::MAX
        &&& i32::MIN <= self.y + delta.y <= i32::MAX
    }

    /// Whether the component-wise difference of `self` and `origin` is
    /// representable.
    pub open spec fn can_subtract(self, origin: Point) -> bool {
        &&& i32::MIN <= self.x - origin.x <= i32::MAX
        &&& i32::MIN <= self.y - origin.y <= i32::MAX
    }

    /// Vector addition: `self` moved by `delta`.
    pub fn moved_by(self, delta: Point) -> (p: Point)
        requires
            self.can_move_by(delta),
        ensures
            p.x == self.x + delta.x,
            p.y == self.y + delta.y,
    {
        Point { x: self.x + delta.x, y: self.y + delta.y }
    }

    /// Vector subtraction: `self` as seen from `origin`.
    pub fn relative_to(self, origin: Point) -> (p: Point)
        requires
            self.can_subtract(origin),
        ensures
            p.x == self.x - origin.x,
            p.y == self.y - origin.y,
    {
        Point { x: self.x - origin.x, y: self.y - origin.y }
    }
}

/// An axis-aligned rectangle covering the cells `(x, y)` with
/// `x1 <= x < x2` and `y1 <= y < y2`.
#[derive(Clone, Copy, Debug, PartialEq, Eq, Structural)]
pub struct Rect {
    pub x1: i32,
    pub x2: i32,
    pub y1: i32,
    pub y2: i32,
}

impl Rect {
    /// Whether the two rectangles overlap or touch: the closed ranges
    /// `[x1, x2]` and `[y1, y2]` of both meet on each axis.
    pub open spec fn spec_intersect(self, other: Rect) -> bool {
        &&& self.x1 <= other.x2
        &&& self.x2 >= other.x1
        &&& self.y1 <= other.y2
        &&& self.y2 >= other.y1
    }

    /// The midpoint of the rectangle, each coordinate rounded towards zero.
    pub open spec fn spec_center(self) -> Point {
        Point {
            x: midpoint(self.x1 as int, self.x2 as int) as i32,
            y: midpoint(self.y1 as int, self.y2 as int) as i32,
        }
    }

    /// Whether the cell `(x, y)` lies in the rectangle.
    pub open spec fn covers(self, x: int, y: int) -> bool {
        &&& self.x1 <= x < self.x2
        &&& self.y1 <= y < self.y2
    }

    /// The cells of the rectangle, row after row from the top and from left
    /// to right in each row.
    pub open spec fn spec_points(self) -> Seq<Point> {
        if self.x1 < self.x2 && self.y1 < self.y2 {
            Seq::new(
                ((self.x2 - self.x1) * (self.y2 - self.y1)) as nat,
                |i: int|
                    Point {
                        x: (self.x1 + i % (self.x2 - self.x1)) as i32,
                        y: (self.y1 + i / (self.x2 - self.x1)) as i32,
                    },
            )
        } else {
            Seq::empty()
        }
    }

    /// The rectangle with top-left corner `(x, y)` and the given size.
    pub fn with_size(x: i32, y: i32, width: i32, height: i32) -> (r: Rect)
        requires
            i32::MIN <= x + width <= i32::MAX,
            i32::MIN <= y + height <= i32::MAX,
        ensures
            r.x1 == x,
            r.y1 == y,
            r.x2 == x + width,
            r.y2 == y + height,
    {
        Rect { x1: x, x2: x + width, y1: y, y2: y + height }
    }

    /// Whether `self` and `other` overlap, borders included.
    pub fn intersect(&self, other: &Rect) -> (b: bool)
        ensures
            b == self.spec_intersect(*other),
    {
        self.x1 <= other.x2 && self.x2 >= other.x1 && self.y1 <= other.y2 && self.y2 >= other.y1
    }

    /// The cells of the rectangle, row after row from the top and from left
    /// to right in each row.
    pub fn points(&self) -> (cells: Vec<Point>)
        ensures
            cells@ == self.spec_points(),
    {
        let mut cells: Vec<Point> = Vec::new();
        if self.x1 >= self.x2 || self.y1 >= self.y2 {
            return cells;
        }
        let ghost width = self.x2 - self.x1;
        let ghost height = self.y2 - self.y1;
        let mut y: i32 = self.y1;
        while y < self.y2
            invariant
                self.x1 < self.x2,
                self.y1 < self.y2,
                self.y1 <= y <= self.y2,
                width == self.x2 - self.x1,
                cells@.len() == (y - self.y1) * width,
                forall|k: int|
                    0 <= k < cells@.len() ==> #[trigger] cells@[k] == (Point {
                        x: (self.x1 + k % width) as i32,
                        y: (self.y1 + k / width) as i32,
                    }),
            decreases self.y2 - y,
        {
            let mut x: i32 = self.x1;
            while x < self.x2
                invariant
                    self.x1 <= x <= self.x2,
                    self.y1 <= y < self.y2,
                    width == self.x2 - self.x1,
                    cells@.len() == (y - self.y1) * width + (x - self.x1),
                    forall|k: int|
                        0 <= k < cells@.len() ==> #[trigger] cells@[k] == (Point {
                            x: (self.x1 + k % width) as i32,
                            y: (self.y1 + k / width) as i32,
                        }),
                decreases self.x2 - x,
            {
                proof {
                    lemma_fundamental_div_mod_converse(
                        cells@.len() as int,
                        width,
                        y - self.y1,
                        x - self.x1,
                    );
                }
                cells.push(Point { x, y });
                x += 1;
            }
            proof {
                assert((y - self.y1) * width + width == (y + 1 - self.y1) * width)
                    by (nonlinear_arith);
            }
            y += 1;
        }
        proof {
            assert((self.y2 - self.y1) * width == (self.x2 - self.x1) * (self.y2 - self.y1))
                by (nonlinear_arith)
                requires
                    width == self.x2 - self.x1,
            ;
            assert(cells@ =~= self.spec_points());
        }
        cells
    }

    /// The center cell of the rectangle.
    pub fn center(&self) -> (c: Point)
        ensures
            c == self.spec_center(),
            c.x == midpoint(self.x1 as int, self.x2 as int),
            c.y == midpoint(self.y1 as int, self.y2 as int),
    {
        Point { x: half_sum(self.x1, self.x2), y: half_sum(self.y1, self.y2) }
    }
}

/// A rectangle with at least one cell covers its own center.
pub proof fn lemma_center_covered(r: Rect)
    requires
        r.x1 < r.x2,
        r.y1 < r.y2,
        r.x1 >= 0,
        r.y1 >= 0,
    ensures
        r.covers(r.spec_center().x as int, r.spec_center().y as int),
        r.spec_center().x == (r.x1 + r.x2) / 2,
        r.spec_center().y == (r.y1 + r.y2) / 2,
{
}

/// The cells of a rectangle are exactly the cells that it covers.
pub proof fn lemma_points_are_the_covered_cells(r: Rect)
    ensures
        forall|i: int|
            0 <= i < r.spec_points().len() ==> r.covers(
                (#[trigger] r.spec_points()[i]).x as int,
                r.spec_points()[i].y as int,
            ),
        forall|x: i32, y: i32| #[trigger]
            r.covers(x as int, y as int) ==> r.spec_points().contains(Point { x, y }),
{
    if r.x1 < r.x2 && r.y1 < r.y2 {
        let width = r.x2 - r.x1;
        let height = r.y2 - r.y1;
        let cells = r.spec_points();
        assert forall|i: int| 0 <= i < cells.len() implies r.covers(
            (#[trigger] cells[i]).x as int,
            cells[i].y as int,
        ) by {
            lemma_fundamental_div_mod(i, width);
            lemma_mod_pos_bound(i, width);
            assert(0 <= i / width < height) by (nonlinear_arith)
                requires
                    0 <= i < width * height,
                    width > 0,
                    i == width * (i / width) + i % width,
                    0 <= i % width < width,
            ;
        }
        assert forall|x: i32, y: i32| #[trigger] r.covers(x as int, y as int) implies cells.contains(
            Point { x, y },
        ) by {
            let i = (y - r.y1) * width + (x - r.x1);
            lemma_fundamental_div_mod_converse(i, width, y - r.y1, x - r.x1);
            assert(0 <= i < width * height) by (nonlinear_arith)
                requires
                    i == (y - r.y1) * width + (x - r.x1),
                    0 <= x - r.x1 < width,
                    0 <= y - r.y1 < height,
            ;
            assert(cells[i] == Point { x, y });
        }
    }
}

fn half_sum(a: i32, b: i32) -> (m: i32)
    ensures
        m == midpoint(a as int, b as int),
{
    let sum: i64 = a as i64 + b as i64;
    let half: i64 = if sum >= 0 {
        sum / 2
    } else {
        -((-sum) / 2)
    };
    half as i32
}

} // verus!
