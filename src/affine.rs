//! Fixed-point affine maps of the plane.

use vstd::prelude::*;
use crate::util::{Point, UNIT};

verus! {

/// Half of `UNIT`.
pub const HALF: i32 = 8388608;

/// `p` lies in the closed unit square.
pub open spec fn in_unit_square(p: Point) -> bool {
    0 <= p.x <= UNIT && 0 <= p.y <= UNIT
}

/// The map `(x, y) -> (xx*x + xy*y + x0, yx*x + yy*y + y0)`, with every
/// coefficient counted in `UNIT`ths.
#[derive(Clone, Copy, PartialEq, Eq, Debug, Structural)]
pub struct Affine {
    pub xx: i32,
    pub xy: i32,
    pub x0: i32,
    pub yx: i32,
    pub yy: i32,
    pub y0: i32,
}

/// One output coordinate: the linear part rounded down, then the offset.
pub open spec fn affine_coord(a: int, b: int, c: int, x: int, y: int) -> int {
    (a * x + b * y) / (UNIT as int) + c
}

proof fn lemma_affine_coord_bounds(a: int, b: int, c: int, x: int, y: int)
    requires
        0 <= a,
        0 <= b,
        0 <= c,
        a + b + c <= UNIT,
        0 <= x <= UNIT,
        0 <= y <= UNIT,
    ensures
        0 <= affine_coord(a, b, c, x, y) <= UNIT,
{
    let u = UNIT as int;
    assert(0 <= (a * x + b * y) / u <= a + b) by (nonlinear_arith)
        requires
            0 <= a,
            0 <= b,
            0 <= x <= u,
            0 <= y <= u,
            u > 0,
    {
        assert(a * x <= a * u);
        assert(b * y <= b * u);
        assert((a + b) * u / u == a + b);
    }
}

impl Affine {
    /// Nonnegative coefficients whose rows sum to at most one: such a map
    /// sends the unit square into itself.
    pub open spec fn wf(&self) -> bool {
        &&& 0 <= self.xx && 0 <= self.xy && 0 <= self.x0
        &&& 0 <= self.yx && 0 <= self.yy && 0 <= self.y0
        &&& self.xx + self.xy + self.x0 <= UNIT
        &&& self.yx + self.yy + self.y0 <= UNIT
    }

    pub open spec fn spec_apply(&self, p: Point) -> Point {
        Point {
            x: affine_coord(self.xx as int, self.xy as int, self.x0 as int, p.x as int, p.y as int) as i32,
            y: affine_coord(self.yx as int, self.yy as int, self.y0 as int, p.x as int, p.y as int) as i32,
        }
    }

    /// The image of `p`.
    pub fn apply(&self, p: &Point) -> (r: Point)
        requires
            self.wf(),
            in_unit_square(*p),
        ensures
            r == self.spec_apply(*p),
            in_unit_square(r),
    {
        proof {
            lemma_affine_coord_bounds(self.xx as int, self.xy as int, self.x0 as int, p.x as int, p.y as int);
            lemma_affine_coord_bounds(self.yx as int, self.yy as int, self.y0 as int, p.x as int, p.y as int);
        }
        let px = p.x as u64;
        let py = p.y as u64;
        let u = UNIT as u64;
        assert(self.xx * px + self.xy * py <= 2 * u * u && self.yx * px + self.yy * py <= 2 * u * u)
            by (nonlinear_arith)
            requires
                0 <= self.xx <= u,
                0 <= self.xy <= u,
                0 <= self.yx <= u,
                0 <= self.yy <= u,
                px <= u,
                py <= u,
        ;
        let x = (self.xx as u64 * px + self.xy as u64 * py) / u;
        let y = (self.yx as u64 * px + self.yy as u64 * py) / u;
        Point { x: x as i32 + self.x0, y: y as i32 + self.y0 }
    }
}

/// The three halving maps whose attractor is the Sierpinski triangle.
pub open spec fn sierpinsky_spec() -> Seq<Affine> {
    seq![
        Affine { xx: HALF, xy: 0, x0: 0, yx: 0, yy: HALF, y0: 0 },
        Affine { xx: HALF, xy: 0, x0: HALF, yx: 0, yy: HALF, y0: 0 },
        Affine { xx: HALF, xy: 0, x0: 0, yx: 0, yy: HALF, y0: HALF },
    ]
}

pub fn sierpinsky_transforms() -> (r: [Affine; 3])
    ensures
        r@ == sierpinsky_spec(),
        forall|i: int| 0 <= i < 3 ==> (#[trigger] r@[i]).wf(),
{
    let r = [
        Affine { xx: HALF, xy: 0, x0: 0, yx: 0, yy: HALF, y0: 0 },
        Affine { xx: HALF, xy: 0, x0: HALF, yx: 0, yy: HALF, y0: 0 },
        Affine { xx: HALF, xy: 0, x0: 0, yx: 0, yy: HALF, y0: HALF },
    ];
    assert(r@ =~= sierpinsky_spec());
    r
}

} // verus!
