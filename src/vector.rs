use vstd::prelude::*;

use crate::arith::{floor_sqrt, isqrt, lemma_floor_sqrt};

verus! {

/// Fixed units in one world unit.
pub const UNIT: i64 = 1_000_000;

/// Largest coordinate, in fixed units, that a position in the world may have.
pub const COORD_MAX: i64 = 0x100_0000_0000;

/// Division of `a` by a positive `b`, rounded toward zero.
pub open spec fn trunc_div(a: int, b: int) -> int {
    if a >= 0 {
        a / b
    } else {
        -((-a) / b)
    }
}

/// A point or displacement in the plane, in fixed units.
#[derive(Clone, Copy, Debug, PartialEq, Eq, Structural)]
pub struct Vector2D {
    pub x: i64,
    pub y: i64,
}

impl Vector2D {
    /// Both coordinates lie within the world's representable square.
    pub open spec fn in_world(self) -> bool {
        -COORD_MAX <= self.x <= COORD_MAX && -COORD_MAX <= self.y <= COORD_MAX
    }

    /// Both coordinates are within twice the world's bound, as the
    /// difference of two points of the world is.
    pub open spec fn in_span(self) -> bool {
        -2 * COORD_MAX <= self.x <= 2 * COORD_MAX && -2 * COORD_MAX <= self.y <= 2 * COORD_MAX
    }

    /// The squared Euclidean norm.
    pub open spec fn norm_sq(self) -> nat {
        (self.x * self.x + self.y * self.y) as nat
    }

    /// The Euclidean norm, rounded down.
    pub open spec fn length(self) -> nat {
        floor_sqrt(self.norm_sq())
    }

    /// The Euclidean norm in units of `1 / UNIT` fixed units, rounded down.
    pub open spec fn fine_length(self) -> nat {
        floor_sqrt(self.norm_sq() * (UNIT * UNIT) as nat)
    }

    pub open spec fn plus(self, o: Vector2D) -> (int, int) {
        (self.x + o.x, self.y + o.y)
    }

    pub open spec fn minus(self, o: Vector2D) -> (int, int) {
        (self.x - o.x, self.y - o.y)
    }

    /// The direction of the vector scaled to length `UNIT` (one world unit):
    /// each coordinate divided by the norm taken to `1 / UNIT` of a fixed
    /// unit, and rounded toward zero, so within one fixed unit of the exact
    /// value; the zero vector stays zero.
    pub open spec fn direction(self) -> Vector2D {
        if self.norm_sq() == 0 {
            Vector2D { x: 0, y: 0 }
        } else {
            Vector2D {
                x: trunc_div(self.x * (UNIT * UNIT), self.fine_length() as int) as i64,
                y: trunc_div(self.y * (UNIT * UNIT), self.fine_length() as int) as i64,
            }
        }
    }

    /// The vector multiplied by the fixed-point factor `k` (`k / UNIT`),
    /// each coordinate rounded toward zero.
    pub open spec fn scaled(self, k: int) -> (int, int) {
        (trunc_div(self.x * k, UNIT as int), trunc_div(self.y * k, UNIT as int))
    }

    pub fn new(x: i64, y: i64) -> (r: Vector2D)
        ensures
            r.x == x,
            r.y == y,
    {
        Vector2D { x, y }
    }

    pub fn magnitude(&self) -> (r: u64)
        ensures
            r == self.length(),
    {
        let x = self.x as i128;
        let y = self.y as i128;
        assert(x * x <= 0x4000_0000_0000_0000_0000_0000_0000_0000) by (nonlinear_arith)
            requires
                -0x8000_0000_0000_0000 <= x <= 0x8000_0000_0000_0000,
        ;
        assert(y * y <= 0x4000_0000_0000_0000_0000_0000_0000_0000) by (nonlinear_arith)
            requires
                -0x8000_0000_0000_0000 <= y <= 0x8000_0000_0000_0000,
        ;
        assert(0 <= x * x && 0 <= y * y) by (nonlinear_arith);
        let sq = (x * x) as u128 + (y * y) as u128;
        isqrt(sq)
    }

    pub fn normalize(&self) -> (r: Vector2D)
        requires
            self.in_span(),
        ensures
            r == self.direction(),
    {
        let x = self.x as i128;
        let y = self.y as i128;
        assert(x * x <= 0x10_0000_0000_0000_0000_0000 && y * y <= 0x10_0000_0000_0000_0000_0000)
            by (nonlinear_arith)
            requires
                -0x200_0000_0000 <= x <= 0x200_0000_0000,
                -0x200_0000_0000 <= y <= 0x200_0000_0000,
        ;
        assert(0 <= x * x && 0 <= y * y) by (nonlinear_arith);
        let sq = (x * x) as u128 + (y * y) as u128;
        if sq == 0 {
            return Vector2D::new(0, 0);
        }
        let fine = isqrt(sq * 1_000_000_000_000);
        proof {
            lemma_coord_le_fine_length(*self);
        }
        Vector2D { x: div_toward_zero(self.x, fine), y: div_toward_zero(self.y, fine) }
    }

    pub fn add(self, o: Vector2D) -> (r: Vector2D)
        requires
            i64::MIN <= self.x + o.x <= i64::MAX,
            i64::MIN <= self.y + o.y <= i64::MAX,
        ensures
            (r.x as int, r.y as int) == self.plus(o),
    {
        Vector2D { x: self.x + o.x, y: self.y + o.y }
    }

    pub fn sub(self, o: Vector2D) -> (r: Vector2D)
        requires
            i64::MIN <= self.x - o.x <= i64::MAX,
            i64::MIN <= self.y - o.y <= i64::MAX,
        ensures
            (r.x as int, r.y as int) == self.minus(o),
    {
        Vector2D { x: self.x - o.x, y: self.y - o.y }
    }

    /// Multiplies by the fixed-point factor `k`, that is by `k / UNIT`.
    pub fn scale(self, k: i64) -> (r: Vector2D)
        requires
            i64::MIN <= self.scaled(k as int).0 <= i64::MAX,
            i64::MIN <= self.scaled(k as int).1 <= i64::MAX,
        ensures
            (r.x as int, r.y as int) == self.scaled(k as int),
    {
        Vector2D { x: mul_div_toward_zero(self.x, k), y: mul_div_toward_zero(self.y, k) }
    }
}

/// Each coordinate is at most the length of the vector.
pub proof fn lemma_coord_le_length(v: Vector2D)
    ensures
        v.x * v.x <= v.norm_sq(),
        v.y * v.y <= v.norm_sq(),
        -(v.length() as int) <= v.x <= v.length(),
        -(v.length() as int) <= v.y <= v.length(),
{
    let x = v.x as int;
    let y = v.y as int;
    assert(0 <= x * x && 0 <= y * y) by (nonlinear_arith);
    lemma_floor_sqrt(v.norm_sq());
    let m = v.length() as int;
    assert(-m <= x <= m) by (nonlinear_arith)
        requires
            x * x <= v.norm_sq(),
            v.norm_sq() < (m + 1) * (m + 1),
            m >= 0,
    ;
    assert(-m <= y <= m) by (nonlinear_arith)
        requires
            y * y <= v.norm_sq(),
            v.norm_sq() < (m + 1) * (m + 1),
            m >= 0,
    ;
}

/// Each coordinate, in units of `1 / UNIT` fixed units, is at most the fine
/// length, which is positive for a vector that is not zero.
pub proof fn lemma_coord_le_fine_length(v: Vector2D)
    ensures
        -(v.fine_length() as int) <= v.x * UNIT <= v.fine_length(),
        -(v.fine_length() as int) <= v.y * UNIT <= v.fine_length(),
        v.norm_sq() > 0 ==> v.fine_length() > 0,
{
    let x = v.x as int;
    let y = v.y as int;
    let n = v.norm_sq() as int;
    assert(0 <= x * x && 0 <= y * y) by (nonlinear_arith);
    lemma_floor_sqrt(v.norm_sq() * (UNIT * UNIT) as nat);
    let m = v.fine_length() as int;
    assert(-m <= x * 1_000_000 <= m) by (nonlinear_arith)
        requires
            x * x <= n,
            n * 1_000_000_000_000 < (m + 1) * (m + 1),
            m >= 0,
    {
        assert((x * 1_000_000) * (x * 1_000_000) == (x * x) * 1_000_000_000_000);
    }
    assert(-m <= y * 1_000_000 <= m) by (nonlinear_arith)
        requires
            y * y <= n,
            n * 1_000_000_000_000 < (m + 1) * (m + 1),
            m >= 0,
    {
        assert((y * 1_000_000) * (y * 1_000_000) == (y * y) * 1_000_000_000_000);
    }
    if n > 0 {
        assert(m > 0) by (nonlinear_arith)
            requires
                n >= 1,
                m >= 0,
                n * 1_000_000_000_000 < (m + 1) * (m + 1),
        ;
    }
}

/// `a * UNIT^2 / m` rounded toward zero, for `|a| * UNIT <= m`.
fn div_toward_zero(a: i64, m: u64) -> (r: i64)
    requires
        m > 0,
        -(m as int) <= a * UNIT <= m,
        -0x200_0000_0000 <= a <= 0x200_0000_0000,
    ensures
        r == trunc_div(a * (UNIT * UNIT), m as int),
        -UNIT <= r <= UNIT,
{
    let n = a as i128 * 1_000_000_000_000;
    let d = m as i128;
    if n >= 0 {
        assert(n / d <= 1_000_000) by (nonlinear_arith)
            requires
                n == a * 1_000_000_000_000,
                0 <= n,
                a * 1_000_000 <= d,
                d > 0,
        {
            assert(n == (a * 1_000_000) * 1_000_000);
            assert(n <= d * 1_000_000);
        }
        (n / d) as i64
    } else {
        assert((-(n as int)) / (d as int) <= 1_000_000) by (nonlinear_arith)
            requires
                n == a * 1_000_000_000_000,
                n < 0,
                -d <= a * 1_000_000,
                d > 0,
        {
            assert(-n == (-(a * 1_000_000)) * 1_000_000);
            assert(-n <= d * 1_000_000);
        }
        -(((-n) / d) as i64)
    }
}

/// `a * k / UNIT` rounded toward zero, where the result fits.
fn mul_div_toward_zero(a: i64, k: i64) -> (r: i64)
    requires
        i64::MIN <= trunc_div(a * k, UNIT as int) <= i64::MAX,
    ensures
        r == trunc_div(a * k, UNIT as int),
{
    let a2 = a as i128;
    let k2 = k as i128;
    assert(-0x4000_0000_0000_0000_0000_0000_0000_0000 <= a2 * k2
        <= 0x4000_0000_0000_0000_0000_0000_0000_0000) by (nonlinear_arith)
        requires
            -0x8000_0000_0000_0000 <= a2 <= 0x8000_0000_0000_0000,
            -0x8000_0000_0000_0000 <= k2 <= 0x8000_0000_0000_0000,
    ;
    let n = a2 * k2;
    if n >= 0 {
        (n / 1_000_000) as i64
    } else {
        -(((-n) / 1_000_000) as i128) as i64
    }
}

/// Normalizing the zero vector gives the zero vector.
pub proof fn lemma_normalize_zero()
    ensures
        (Vector2D { x: 0, y: 0 }).direction() == (Vector2D { x: 0, y: 0 }),
{
    let z = Vector2D { x: 0, y: 0 };
    assert(z.norm_sq() == 0);
}

} // verus!
