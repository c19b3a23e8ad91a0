use vstd::prelude::*;

use crate::arith::{
    floor_sqrt, isqrt_round, lemma_floor_sqrt, lemma_floor_sqrt_unique, lemma_round_sqrt, round_sqrt,
};
use crate::vector::{
    lemma_coord_le_fine_length, lemma_coord_le_length, trunc_div, Vector2D, COORD_MAX, UNIT,
};

verus! {

/// Radius of a player that has just joined: ten world units.
pub const START_RADIUS: u32 = 10_000_000;

/// `100^2 * UNIT^4 * 113`: the square of the speed numerator, with 2π taken as 710 / 113.
pub const SPEED_SQ_NUM: u128 = 1_130_000_000_000_000_000_000_000_000_000;

/// Numerator of the rational 2π = 710 / 113 (accurate to 3e-7) used for masses and speeds.
pub const TWO_PI_NUM: u128 = 710;

/// Denominator of the rational 2π.
pub const TWO_PI_DEN: u128 = 113;

/// Mass of a body of radius `r`, `2π r^2`, rounded down, in squared fixed units.
pub open spec fn mass(r: nat) -> nat {
    ((TWO_PI_NUM as nat) * r * r / (TWO_PI_DEN as nat)) as nat
}

/// Mass of a body of radius `r` divided by the factor 2π that every mass
/// shares: the quantity that merging adds up exactly.
pub open spec fn area(r: nat) -> nat {
    r * r
}

/// Radius of the body formed when bodies of radii `r1` and `r2` merge:
/// the radius whose mass is the sum of theirs, rounded to the nearest fixed
/// unit, and capped at the largest radius a `u32` holds.
pub open spec fn merged_radius(r1: nat, r2: nat) -> nat {
    let r = round_sqrt(area(r1) + area(r2));
    if r <= u32::MAX {
        r
    } else {
        u32::MAX as nat
    }
}

/// Distance, in fixed units, that a player of radius `r > 0` covers in one
/// move: `100 / sqrt(mass)` world units for the mass `2π r^2`, rounded to
/// the nearest fixed unit.
pub open spec fn speed(r: nat) -> nat {
    round_sqrt(SPEED_SQ_NUM as nat / (TWO_PI_NUM * r * r) as nat)
}

/// The displacement from `from` to `to`.
pub open spec fn offset(from: Vector2D, to: Vector2D) -> Vector2D {
    Vector2D { x: (to.x - from.x) as i64, y: (to.y - from.y) as i64 }
}

/// Where a player of radius `r` at `pos` ends after one move toward `target`:
/// it stays put when it has no size or when the target is nearer than its
/// speed, and otherwise advances by its speed along the direction to the target.
pub open spec fn position_after_move(pos: Vector2D, r: nat, target: Vector2D) -> Vector2D {
    let d = offset(pos, target);
    if r == 0 || d.length() < speed(r) {
        pos
    } else {
        let s = d.direction().scaled(speed(r) as int);
        Vector2D { x: (pos.x + s.0) as i64, y: (pos.y + s.1) as i64 }
    }
}

/// `v` lies between `a` and `b`, inclusive, in either order.
pub open spec fn between(a: int, v: int, b: int) -> bool {
    (a <= v <= b) || (b <= v <= a)
}

/// A player: a disc that moves toward the place its owner points at and
/// grows by eating food and smaller players.
#[derive(Debug)]
pub struct Player {
    pub id: u32,
    pub position: Vector2D,
    pub radius: u32,
    pub name: String,
}

impl Player {
    /// The player lies in the world.
    pub open spec fn wf(&self) -> bool {
        self.position.in_world()
    }

    pub fn new(id: u32, name: String) -> (r: Player)
        ensures
            r.id == id,
            r.name == name,
            r.position == (Vector2D { x: 0, y: 0 }),
            r.radius == START_RADIUS,
            r.wf(),
    {
        Player { id, name, position: Vector2D::new(0, 0), radius: START_RADIUS }
    }

    /// A copy of the player.
    pub fn duplicate(&self) -> (r: Player)
        ensures
            r == *self,
    {
        Player { id: self.id, position: self.position, radius: self.radius, name: self.name.clone() }
    }

    /// The player's mass, `2π r^2` in squared fixed units, rounded down.
    pub fn mass(&self) -> (r: u128)
        ensures
            r == mass(self.radius as nat),
    {
        let r = self.radius as u128;
        assert(710 * r * r <= 710 * 0xffff_fffe_0000_0001) by (nonlinear_arith)
            requires
                r <= 0xffff_ffff,
        ;
        TWO_PI_NUM * r * r / TWO_PI_DEN
    }

    /// The radius of `player` once it has eaten `other`.
    pub fn radius_after_eat(player: &Player, other: &Player) -> (r: u32)
        ensures
            r == merged_radius(player.radius as nat, other.radius as nat),
    {
        combined_radius(player.radius, other.radius)
    }

    /// One move toward `position` (see [`position_after_move`]).
    pub fn move_towards(&mut self, position: Vector2D)
        requires
            old(self).wf(),
            position.in_world(),
        ensures
            final(self).position == position_after_move(
                old(self).position,
                old(self).radius as nat,
                position,
            ),
            final(self).id == old(self).id,
            final(self).radius == old(self).radius,
            final(self).name == old(self).name,
            final(self).wf(),
    {
        if self.radius == 0 {
            return;
        }
        let velocity = speed_of(self.radius);
        let difference = position.sub(self.position);
        assert(difference == offset(self.position, position));
        if difference.magnitude() < velocity {
            return;
        }
        proof {
            lemma_step_between(difference, velocity as int);
        }
        let step = difference.normalize().scale(velocity as i64);
        self.position = self.position.add(step);
        proof {
            lemma_move_between(old(self).position, old(self).radius as nat, position);
        }
    }
}

/// The merged radius of bodies of radii `r1` and `r2`.
pub fn combined_radius(r1: u32, r2: u32) -> (r: u32)
    ensures
        r == merged_radius(r1 as nat, r2 as nat),
{
    let a = r1 as u128;
    let b = r2 as u128;
    assert(a * a <= 0xffff_fffe_0000_0001 && b * b <= 0xffff_fffe_0000_0001) by (nonlinear_arith)
        requires
            a <= 0xffff_ffff,
            b <= 0xffff_ffff,
    ;
    let s = isqrt_round(a * a + b * b);
    if s <= 0xffff_ffff {
        s as u32
    } else {
        0xffff_ffff
    }
}

/// The speed of a player of radius `r`: never below two fixed units.
pub fn speed_of(r: u32) -> (v: u64)
    requires
        r > 0,
    ensures
        v == speed(r as nat),
        2 <= v <= 0x4000_0000_0000,
{
    proof {
        lemma_speed_bounds(r as nat);
    }
    let r2 = r as u128;
    assert(1 <= 710 * r2 * r2 <= 710 * 0xffff_fffe_0000_0001) by (nonlinear_arith)
        requires
            1 <= r2 <= 0xffff_ffff,
    ;
    let q = SPEED_SQ_NUM / (TWO_PI_NUM * r2 * r2);
    isqrt_round(q)
}

/// Every radius a `u32` holds has a speed of at least two fixed units, and
/// no speed exceeds `2^46` fixed units.
pub proof fn lemma_speed_bounds(r: nat)
    requires
        0 < r <= u32::MAX,
    ensures
        2 <= speed(r) <= 0x4000_0000_0000,
{
    let d = (TWO_PI_NUM * r * r) as int;
    assert(710 <= d <= 710 * 0xffff_fffe_0000_0001) by (nonlinear_arith)
        requires
            d == 710 * r * r,
            1 <= r <= 0xffff_ffff,
    ;
    let q: int = SPEED_SQ_NUM as int / d;
    assert(16 <= q <= 1_600_000_000_000_000_000_000_000_000) by (nonlinear_arith)
        requires
            q == 1_130_000_000_000_000_000_000_000_000_000int / d,
            710 <= d <= 710 * 0xffff_fffe_0000_0001,
    ;
    lemma_floor_sqrt(4 * q as nat);
    let t = floor_sqrt(4 * q as nat) as int;
    assert(8 <= t <= 0x8000_0000_0000) by (nonlinear_arith)
        requires
            t * t <= 4 * q,
            4 * q < (t + 1) * (t + 1),
            t >= 0,
            16 <= q <= 1_600_000_000_000_000_000_000_000_000,
    {
        if t < 8 {
            assert((t + 1) * (t + 1) <= 64);
        }
        if t > 0x8000_0000_0000 {
            assert(t * t > 0x8000_0000_0000 * 0x8000_0000_0000);
        }
    }
}

/// Negating the dividend negates a division rounded toward zero.
pub proof fn lemma_trunc_div_neg(a: int, b: int)
    requires
        b > 0,
    ensures
        trunc_div(-a, b) == -trunc_div(a, b),
{
    if a == 0 {
        assert(0int / b == 0);
    }
}

/// A displacement at least `v` long has a fine length of at least `v * UNIT`.
pub proof fn lemma_fine_length_ge(d: Vector2D, v: int)
    requires
        0 <= v <= d.length(),
    ensures
        v * UNIT <= d.fine_length(),
{
    lemma_floor_sqrt(d.norm_sq());
    lemma_floor_sqrt(d.norm_sq() * (UNIT * UNIT) as nat);
    let m = d.length() as int;
    let n = d.norm_sq() as int;
    let f = d.fine_length() as int;
    assert(v * 1_000_000 <= f) by (nonlinear_arith)
        requires
            0 <= v <= m,
            m * m <= n,
            n * 1_000_000_000_000 < (f + 1) * (f + 1),
            f >= 0,
    {
        assert(v * v <= m * m);
        if f < v * 1_000_000 {
            assert((f + 1) * (f + 1) <= (v * 1_000_000) * (v * 1_000_000));
        }
    }
}

/// One coordinate of a step of `v` along a displacement of fine length
/// `f >= v * UNIT`, for a non-negative coordinate `a`: it goes no further than `a`.
proof fn lemma_step_coord_nonneg(a: int, f: int, v: int)
    requires
        0 <= a * UNIT <= f,
        0 <= v * UNIT <= f,
        f > 0,
    ensures
        0 <= trunc_div(trunc_div(a * (UNIT * UNIT), f) * v, UNIT as int) <= a,
        0 <= trunc_div(a * (UNIT * UNIT), f) <= UNIT,
{
    let n = (a * 1_000_000_000_000) / f;
    assert(0 <= n && n * f <= a * 1_000_000_000_000 && n <= 1_000_000) by (nonlinear_arith)
        requires
            n == (a * 1_000_000_000_000) / f,
            0 <= a * 1_000_000 <= f,
            f > 0,
    {
        assert(a * 1_000_000_000_000 == (a * 1_000_000) * 1_000_000);
        assert(a * 1_000_000_000_000 <= f * 1_000_000);
    }
    let s = (n * v) / 1_000_000;
    assert(0 <= s <= a) by (nonlinear_arith)
        requires
            s == (n * v) / 1_000_000,
            0 <= n,
            0 <= a,
            n * f <= a * 1_000_000_000_000,
            0 <= v * 1_000_000 <= f,
    {
        assert(n * (v * 1_000_000) <= n * f);
        assert(s * 1_000_000 <= n * v);
        assert((n * v) * 1_000_000 <= a * 1_000_000_000_000);
        assert(n * v <= a * 1_000_000);
    }
}

/// One coordinate of such a step, for a coordinate of either sign.
proof fn lemma_step_coord(a: int, f: int, v: int)
    requires
        -f <= a * UNIT <= f,
        0 <= v * UNIT <= f,
        f > 0,
    ensures
        between(0, trunc_div(trunc_div(a * (UNIT * UNIT), f) * v, UNIT as int), a),
        -UNIT <= trunc_div(a * (UNIT * UNIT), f) <= UNIT,
{
    if a >= 0 {
        lemma_step_coord_nonneg(a, f, v);
    } else {
        lemma_step_coord_nonneg(-a, f, v);
        let n = trunc_div((-a) * (UNIT * UNIT), f);
        assert(a * (UNIT * UNIT) == -((-a) * (UNIT * UNIT))) by (nonlinear_arith);
        lemma_trunc_div_neg((-a) * (UNIT * UNIT), f);
        assert(trunc_div(a * (UNIT * UNIT), f) == -n);
        assert((-n) * v == -(n * v)) by (nonlinear_arith);
        lemma_trunc_div_neg(n * v, UNIT as int);
    }
}

/// A step of length `v` along a displacement `d` at least `v` long moves
/// each coordinate toward `d`'s and no further.
pub proof fn lemma_step_between(d: Vector2D, v: int)
    requires
        0 <= v <= d.length(),
    ensures
        between(0, d.direction().scaled(v).0, d.x as int),
        between(0, d.direction().scaled(v).1, d.y as int),
{
    lemma_coord_le_fine_length(d);
    lemma_fine_length_ge(d, v);
    let f = d.fine_length() as int;
    if d.norm_sq() == 0 {
        lemma_coord_le_length(d);
        let z = d.direction();
        assert(z.x == 0 && z.y == 0);
        assert(z.x * v == 0 && z.y * v == 0);
        assert(0int / (UNIT as int) == 0);
    } else {
        lemma_step_coord(d.x as int, f, v);
        lemma_step_coord(d.y as int, f, v);
        assert(d.direction().x == trunc_div(d.x * (UNIT * UNIT), f));
        assert(d.direction().y == trunc_div(d.y * (UNIT * UNIT), f));
    }
}

/// A move never leaves the box spanned by the start and the target, so it
/// never overshoots the target.
pub proof fn lemma_move_between(pos: Vector2D, r: nat, target: Vector2D)
    requires
        pos.in_world(),
        target.in_world(),
    ensures
        between(pos.x as int, position_after_move(pos, r, target).x as int, target.x as int),
        between(pos.y as int, position_after_move(pos, r, target).y as int, target.y as int),
        position_after_move(pos, r, target).in_world(),
{
    let d = offset(pos, target);
    if r > 0 && d.length() >= speed(r) {
        lemma_step_between(d, speed(r) as int);
    }
}

/// Eating conserves mass up to rounding: the merged radius `m` is the
/// nearest to the exact one, so its mass differs from the sum of the two
/// masses by at most `2π m`, a share of at most `1 / m` of it; this holds
/// whenever the merged radius fits a `u32`.
pub proof fn lemma_mass_conserved(r1: u32, r2: u32)
    requires
        round_sqrt(area(r1 as nat) + area(r2 as nat)) <= u32::MAX,
    ensures
        area(merged_radius(r1 as nat, r2 as nat)) <= area(r1 as nat) + area(r2 as nat)
            + merged_radius(r1 as nat, r2 as nat),
        area(r1 as nat) + area(r2 as nat) <= area(merged_radius(r1 as nat, r2 as nat))
            + merged_radius(r1 as nat, r2 as nat),
{
    lemma_round_sqrt(area(r1 as nat) + area(r2 as nat));
}

/// Absorbing a body of radius zero leaves the radius as it was.
pub proof fn lemma_merge_with_nothing(r: nat)
    requires
        r <= u32::MAX,
    ensures
        merged_radius(r, 0) == r,
{
    assert((2 * r) * (2 * r) <= 4 * (r * r + 0) < (2 * r + 1) * (2 * r + 1)) by (nonlinear_arith);
    lemma_floor_sqrt_unique(4 * (r * r + 0), 2 * r as int);
}

/// Distance from `a` to `b` measured along the axes.
pub open spec fn axis_distance(a: Vector2D, b: Vector2D) -> int {
    let dx = if a.x >= b.x { a.x - b.x } else { b.x - a.x };
    let dy = if a.y >= b.y { a.y - b.y } else { b.y - a.y };
    dx + dy
}

/// The coordinate of a displacement that is at least as long as the other
/// one moves by at least one fixed unit in a step of two units or more.
proof fn lemma_dominant_step(a: int, b: int, f: int, v: int)
    requires
        0 <= a,
        b * b <= a * a,
        f * f <= (a * a + b * b) * (UNIT * UNIT),
        0 <= a * UNIT <= f,
        0 < f,
        2 <= v,
        v * UNIT <= f,
    ensures
        trunc_div(trunc_div(a * (UNIT * UNIT), f) * v, UNIT as int) >= 1,
{
    assert(f * f <= 2 * (a * a) * 1_000_000_000_000) by (nonlinear_arith)
        requires
            b * b <= a * a,
            f * f <= (a * a + b * b) * 1_000_000_000_000,
    ;
    assert(a * 1_000_000_000_000 >= 707106 * f) by (nonlinear_arith)
        requires
            0 <= a,
            0 < f,
            f * f <= 2 * (a * a) * 1_000_000_000_000,
    {
        if a * 1_000_000_000_000 < 707106 * f {
            assert((a * 1_000_000_000_000) * (a * 1_000_000_000_000) < (707106 * f) * (
            707106 * f));
        }
    }
    let n = (a * 1_000_000_000_000) / f;
    assert(n >= 707106) by (nonlinear_arith)
        requires
            n == (a * 1_000_000_000_000) / f,
            a * 1_000_000_000_000 >= 707106 * f,
            0 < f,
    ;
    assert((n * v) / 1_000_000 >= 1) by (nonlinear_arith)
        requires
            n >= 707106,
            v >= 2,
    ;
}

/// Each move of a player that has not yet arrived brings it strictly nearer
/// its target along the axes (its speed is at least two fixed units).
pub proof fn lemma_move_progress(pos: Vector2D, r: nat, target: Vector2D)
    requires
        pos.in_world(),
        target.in_world(),
        0 < r <= u32::MAX,
        offset(pos, target).length() >= speed(r),
    ensures
        axis_distance(position_after_move(pos, r, target), target) < axis_distance(pos, target),
{
    lemma_speed_bounds(r);
    let d = offset(pos, target);
    let v = speed(r) as int;
    lemma_step_between(d, v);
    lemma_fine_length_ge(d, v);
    lemma_coord_le_fine_length(d);
    lemma_floor_sqrt(d.norm_sq() * (UNIT * UNIT) as nat);
    let f = d.fine_length() as int;
    let x = d.x as int;
    let y = d.y as int;
    let s = d.direction().scaled(v);
    assert(d.norm_sq() > 0) by {
        lemma_floor_sqrt(d.norm_sq());
        if d.norm_sq() == 0 {
            assert(d.length() == 0);
        }
    }
    lemma_step_coord(x, f, v);
    lemma_step_coord(y, f, v);
    assert(d.direction().x == trunc_div(x * (UNIT * UNIT), f));
    assert(d.direction().y == trunc_div(y * (UNIT * UNIT), f));
    assert(x * x == (-x) * (-x) && y * y == (-y) * (-y)) by (nonlinear_arith);
    assert(f * f <= (x * x + y * y) * (UNIT * UNIT));
    if x * x >= y * y {
        if x >= 0 {
            lemma_dominant_step(x, y, f, v);
        } else {
            lemma_dominant_step(-x, y, f, v);
            assert(x * (UNIT * UNIT) == -((-x) * (UNIT * UNIT))) by (nonlinear_arith);
            lemma_trunc_div_neg((-x) * (UNIT * UNIT), f);
            let n = trunc_div((-x) * (UNIT * UNIT), f);
            assert((-n) * v == -(n * v)) by (nonlinear_arith);
            lemma_trunc_div_neg(n * v, UNIT as int);
        }
        assert(s.0 != 0);
    } else {
        if y >= 0 {
            lemma_dominant_step(y, x, f, v);
        } else {
            lemma_dominant_step(-y, x, f, v);
            assert(y * (UNIT * UNIT) == -((-y) * (UNIT * UNIT))) by (nonlinear_arith);
            lemma_trunc_div_neg((-y) * (UNIT * UNIT), f);
            let n = trunc_div((-y) * (UNIT * UNIT), f);
            assert((-n) * v == -(n * v)) by (nonlinear_arith);
            lemma_trunc_div_neg(n * v, UNIT as int);
        }
        assert(s.1 != 0);
    }
}

/// Where a player of radius `r` at `pos` is after `k` moves toward `target`.
pub open spec fn position_after_moves(pos: Vector2D, r: nat, target: Vector2D, k: nat) -> Vector2D
    decreases k,
{
    if k == 0 {
        pos
    } else {
        position_after_move(position_after_moves(pos, r, target, (k - 1) as nat), r, target)
    }
}

/// The player has arrived: the target is nearer than one step.
pub open spec fn arrived(pos: Vector2D, r: nat, target: Vector2D) -> bool {
    offset(pos, target).length() < speed(r)
}

/// After `k` moves the player is still in the world, and it has either
/// arrived or come at least `k` fixed units nearer along the axes.
proof fn lemma_moves_progress(pos: Vector2D, r: nat, target: Vector2D, k: nat)
    requires
        pos.in_world(),
        target.in_world(),
        0 < r <= u32::MAX,
    ensures
        position_after_moves(pos, r, target, k).in_world(),
        arrived(position_after_moves(pos, r, target, k), r, target) || axis_distance(
            position_after_moves(pos, r, target, k),
            target,
        ) <= axis_distance(pos, target) - k,
    decreases k,
{
    if k > 0 {
        lemma_moves_progress(pos, r, target, (k - 1) as nat);
        let q = position_after_moves(pos, r, target, (k - 1) as nat);
        lemma_move_between(q, r, target);
        if !arrived(q, r, target) {
            lemma_move_progress(q, r, target);
        }
    }
}

/// Repeated moves toward one target end: after as many moves as the start
/// is from the target along the axes, the player is within one step of it,
/// every further move leaves it where it is, and no move overshoots (see
/// [`lemma_move_between`]).
pub proof fn lemma_moves_arrive(pos: Vector2D, r: nat, target: Vector2D)
    requires
        pos.in_world(),
        target.in_world(),
        0 < r <= u32::MAX,
    ensures
        arrived(position_after_moves(pos, r, target, axis_distance(pos, target) as nat), r, target),
        forall|k: nat|
            k >= axis_distance(pos, target) ==> #[trigger] position_after_moves(pos, r, target, k + 1)
                == position_after_moves(pos, r, target, k),
{
    let n = axis_distance(pos, target) as nat;
    lemma_moves_progress(pos, r, target, n);
    lemma_speed_bounds(r);
    let q = position_after_moves(pos, r, target, n);
    if !arrived(q, r, target) {
        assert(axis_distance(q, target) <= 0);
        let d = offset(q, target);
        assert(d.x == 0 && d.y == 0);
        assert(d.norm_sq() == 0);
        assert(floor_sqrt(0) == 0);
    }
    assert forall|k: nat| k >= n implies #[trigger] position_after_moves(pos, r, target, k + 1)
        == position_after_moves(pos, r, target, k) by {
        lemma_arrived_stays(pos, r, target, n, k);
    }
}

/// Once arrived, the player stays where it is.
proof fn lemma_arrived_stays(pos: Vector2D, r: nat, target: Vector2D, n: nat, k: nat)
    requires
        arrived(position_after_moves(pos, r, target, n), r, target),
        n <= k,
    ensures
        position_after_moves(pos, r, target, k) == position_after_moves(pos, r, target, n),
        position_after_moves(pos, r, target, k + 1) == position_after_moves(pos, r, target, k),
    decreases k - n,
{
    if k > n {
        lemma_arrived_stays(pos, r, target, n, (k - 1) as nat);
    }
}

} // verus!
