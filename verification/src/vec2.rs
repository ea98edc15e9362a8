//! 2-D fixed-point vectors and their mathematical model.

use vstd::prelude::*;
use crate::math::div_trunc;

verus! {

/// Mathematical 2-D integer vector; the model (`view`) of [`Vec2I`].
pub ghost struct V2 {
    pub x: int,
    pub y: int,
}

impl V2 {
    pub open spec fn zero() -> V2 {
        V2 { x: 0, y: 0 }
    }

    pub open spec fn plus(self, o: V2) -> V2 {
        V2 { x: self.x + o.x, y: self.y + o.y }
    }

    pub open spec fn minus(self, o: V2) -> V2 {
        V2 { x: self.x - o.x, y: self.y - o.y }
    }

    pub open spec fn neg(self) -> V2 {
        V2 { x: -self.x, y: -self.y }
    }

    pub open spec fn dot(self, o: V2) -> int {
        self.x * o.x + self.y * o.y
    }

    /// Squared Euclidean length.
    pub open spec fn norm_sq(self) -> int {
        self.x * self.x + self.y * self.y
    }

    /// Component-wise truncating division (used for averaging over a
    /// neighbor count).
    pub open spec fn div_by(self, d: int) -> V2 {
        V2 { x: div_trunc(self.x, d), y: div_trunc(self.y, d) }
    }

    /// Component-wise scaling by the rational weight `num / den`, rounding
    /// toward zero.
    pub open spec fn scaled(self, num: int, den: int) -> V2 {
        V2 { x: div_trunc(self.x * num, den), y: div_trunc(self.y * num, den) }
    }

    /// Both components lie in `[-b, b]`.
    pub open spec fn abs_le(self, b: int) -> bool {
        -b <= self.x <= b && -b <= self.y <= b
    }
}

/// A 2-D vector of fixed-point world coordinates.  The crate is agnostic to
/// the scale: a caller may treat one unit as a pixel, a millimeter, or a
/// thousandth of whatever length the rest of its world uses.
#[derive(Clone, Copy, PartialEq, Eq, Structural, Debug)]
pub struct Vec2I {
    pub x: i64,
    pub y: i64,
}

impl View for Vec2I {
    type V = V2;

    open spec fn view(&self) -> V2 {
        V2 { x: self.x as int, y: self.y as int }
    }
}

impl Vec2I {
    pub fn new(x: i64, y: i64) -> (r: Vec2I)
        ensures
            r@ == (V2 { x: x as int, y: y as int }),
    {
        Vec2I { x, y }
    }

    pub fn zero() -> (r: Vec2I)
        ensures
            r@ == V2::zero(),
    {
        Vec2I { x: 0, y: 0 }
    }

    pub fn plus(self, o: Vec2I) -> (r: Vec2I)
        requires
            i64::MIN <= self@.x + o@.x <= i64::MAX,
            i64::MIN <= self@.y + o@.y <= i64::MAX,
        ensures
            r@ == self@.plus(o@),
    {
        Vec2I { x: self.x + o.x, y: self.y + o.y }
    }

    pub fn minus(self, o: Vec2I) -> (r: Vec2I)
        requires
            i64::MIN <= self@.x - o@.x <= i64::MAX,
            i64::MIN <= self@.y - o@.y <= i64::MAX,
        ensures
            r@ == self@.minus(o@),
    {
        Vec2I { x: self.x - o.x, y: self.y - o.y }
    }
}

/// Negation preserves the squared length.
pub proof fn lemma_norm_sq_neg(v: V2)
    ensures
        v.neg().norm_sq() == v.norm_sq(),
{
    assert((-v.x) * (-v.x) == v.x * v.x) by (nonlinear_arith);
    assert((-v.y) * (-v.y) == v.y * v.y) by (nonlinear_arith);
}

/// Squared Euclidean distance between two points whose components are bounded
/// enough that the squares fit comfortably in `i64`.
pub fn dist_sq(a: Vec2I, b: Vec2I) -> (r: i64)
    requires
        a@.abs_le(0x20_0000),
        b@.abs_le(0x20_0000),
    ensures
        r == b@.minus(a@).norm_sq(),
        0 <= r,
{
    let dx: i64 = b.x - a.x;
    let dy: i64 = b.y - a.y;
    proof {
        crate::math::lemma_abs_mul_bound(dx as int, dx as int, 0x40_0000, 0x40_0000);
        crate::math::lemma_abs_mul_bound(dy as int, dy as int, 0x40_0000, 0x40_0000);
        crate::math::lemma_square_nonneg(dx as int);
        crate::math::lemma_square_nonneg(dy as int);
    }
    dx * dx + dy * dy
}

} // verus!
