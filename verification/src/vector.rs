//! Fixed-point vectors.
//!
//! A coordinate is a whole number of millionths of a world unit. Positions
//! stay inside a cube of `COORD_LIMIT` around the origin, so that every
//! squared distance fits 128 bits.

use vstd::prelude::*;

verus! {

/// Millionths in one world unit; also the length of a direction vector.
pub const UNIT: i64 = 1_000_000;

/// The largest magnitude of a position's coordinate.
pub const COORD_LIMIT: i64 = 1_000_000_000_000;

/// Nanoseconds in a second, times the thousandths in which speeds are given.
pub const SPEED_SCALE: u64 = 1_000_000_000_000;

/// A point or a displacement in space.
#[derive(Clone, Copy, Debug, PartialEq, Eq, Structural)]
pub struct Vec3 {
    pub x: i64,
    pub y: i64,
    pub z: i64,
}

/// The magnitude of a whole number.
pub open spec fn magnitude(a: int) -> int {
    if a >= 0 {
        a
    } else {
        -a
    }
}

/// The quotient of `a` by a positive `b`, rounded toward zero.
pub open spec fn div_toward_zero(a: int, b: int) -> int {
    if a >= 0 {
        a / b
    } else {
        -((-a) / b)
    }
}

/// `v` brought into the range of a position's coordinate.
pub open spec fn clamp_coord(v: int) -> int {
    if v > COORD_LIMIT {
        COORD_LIMIT as int
    } else if v < -COORD_LIMIT {
        -COORD_LIMIT
    } else {
        v
    }
}

/// `r` is the square root of `n`, rounded down.
pub open spec fn is_floor_sqrt(n: int, r: int) -> bool {
    0 <= r && r * r <= n < (r + 1) * (r + 1)
}

/// `q` is `a * UNIT / sqrt(len_sq)`, rounded toward zero: the share that a
/// coordinate `a` has in a vector of squared length `len_sq`, in millionths.
pub open spec fn is_unit_share(a: int, len_sq: int, q: int) -> bool {
    &&& a >= 0 ==> q >= 0
    &&& a <= 0 ==> q <= 0
    &&& q * q * len_sq <= a * a * (UNIT * UNIT)
    &&& a * a * (UNIT * UNIT) < (magnitude(q) + 1) * (magnitude(q) + 1) * len_sq
}

/// How far a coordinate moves along the share `dir` of a direction, at
/// `speed` thousandths of a unit per second, in `delta` nanoseconds.
pub open spec fn travel(dir: int, speed: int, delta: int) -> int {
    div_toward_zero(dir * speed * delta, SPEED_SCALE as int)
}

impl Vec3 {
    /// The origin.
    pub open spec fn zero() -> Vec3 {
        Vec3 { x: 0, y: 0, z: 0 }
    }

    /// Whether every coordinate has a magnitude of at most `limit`.
    pub open spec fn within(self, limit: int) -> bool {
        &&& -limit <= self.x <= limit
        &&& -limit <= self.y <= limit
        &&& -limit <= self.z <= limit
    }

    /// Whether the vector is a position inside the simulated cube.
    pub open spec fn in_bounds(self) -> bool {
        self.within(COORD_LIMIT as int)
    }

    /// Whether the vector has unit length, up to the rounding of its
    /// coordinates: it is not longer than one unit, and would be longer if
    /// each coordinate were one millionth longer.
    pub open spec fn is_unit(self) -> bool {
        &&& self.length_squared() <= UNIT * UNIT
        &&& UNIT * UNIT < (magnitude(self.x as int) + 1) * (magnitude(self.x as int) + 1) + (
        magnitude(self.y as int) + 1) * (magnitude(self.y as int) + 1) + (magnitude(
            self.z as int,
        ) + 1) * (magnitude(self.z as int) + 1)
    }

    /// The square of the Euclidean length.
    pub open spec fn length_squared(self) -> int {
        self.x * self.x + self.y * self.y + self.z * self.z
    }

    /// The square of the Euclidean distance to `other`.
    pub open spec fn distance_squared(self, other: Vec3) -> int {
        (self.x - other.x) * (self.x - other.x) + (self.y - other.y) * (self.y - other.y) + (self.z
            - other.z) * (self.z - other.z)
    }

    /// Whether `dir` points the way of `self` with unit length, each
    /// coordinate rounded toward zero; the zero vector has the zero
    /// direction.
    pub open spec fn has_direction(self, dir: Vec3) -> bool {
        if self.length_squared() == 0 {
            dir == Vec3::zero()
        } else {
            &&& is_unit_share(self.x as int, self.length_squared(), dir.x as int)
            &&& is_unit_share(self.y as int, self.length_squared(), dir.y as int)
            &&& is_unit_share(self.z as int, self.length_squared(), dir.z as int)
        }
    }

    /// The direction of the vector: see `has_direction`, which holds of one
    /// vector only.
    pub open spec fn direction(self) -> Vec3 {
        choose|dir: Vec3| self.has_direction(dir)
    }

    /// The point reached from `self` along `dir` at `speed` in `delta`
    /// nanoseconds, kept inside the simulated cube.
    pub open spec fn advanced(self, dir: Vec3, speed: u32, delta: u64) -> Vec3 {
        Vec3 {
            x: clamp_coord(self.x + travel(dir.x as int, speed as int, delta as int)) as i64,
            y: clamp_coord(self.y + travel(dir.y as int, speed as int, delta as int)) as i64,
            z: clamp_coord(self.z + travel(dir.z as int, speed as int, delta as int)) as i64,
        }
    }

    /// The sum of a position and an offset, kept inside the simulated cube.
    pub open spec fn offset_by(self, offset: Vec3) -> Vec3 {
        Vec3 {
            x: clamp_coord(self.x + offset.x) as i64,
            y: clamp_coord(self.y + offset.y) as i64,
            z: clamp_coord(self.z + offset.z) as i64,
        }
    }

    /// The displacement that leads from `from` to `self`.
    pub open spec fn displacement_from(self, from: Vec3) -> Vec3 {
        Vec3 {
            x: (self.x - from.x) as i64,
            y: (self.y - from.y) as i64,
            z: (self.z - from.z) as i64,
        }
    }

    /// The vector with these coordinates, in millionths of a unit.
    pub fn new(x: i64, y: i64, z: i64) -> (v: Vec3)
        ensures
            v == (Vec3 { x, y, z }),
    {
        Vec3 { x, y, z }
    }

    /// Whether the vector is a position inside the simulated cube.
    pub fn is_in_bounds(&self) -> (ok: bool)
        ensures
            ok == self.in_bounds(),
    {
        -COORD_LIMIT <= self.x && self.x <= COORD_LIMIT && -COORD_LIMIT <= self.y && self.y
            <= COORD_LIMIT && -COORD_LIMIT <= self.z && self.z <= COORD_LIMIT
    }
}

/// The square root of `n`, rounded down.
pub open spec fn sqrt_floor(n: nat) -> nat
    decreases n,
{
    if n == 0 {
        0
    } else {
        let r = sqrt_floor((n - 1) as nat);
        if (r + 1) * (r + 1) <= n {
            r + 1
        } else {
            r
        }
    }
}

/// Every natural number has a rounded-down square root.
pub proof fn lemma_sqrt_floor(n: nat)
    ensures
        is_floor_sqrt(n as int, sqrt_floor(n) as int),
    decreases n,
{
    if n > 0 {
        lemma_sqrt_floor((n - 1) as nat);
        let r = sqrt_floor((n - 1) as nat);
        assert((r + 2) * (r + 2) > (r + 1) * (r + 1)) by (nonlinear_arith)
            requires
                r >= 0,
        ;
    }
}

/// Every coordinate of a vector other than zero has a share in it.
pub proof fn lemma_unit_share_exists(a: int, len_sq: int) -> (q: int)
    requires
        0 < len_sq,
        a * a <= len_sq,
    ensures
        is_unit_share(a, len_sq, q),
        -UNIT <= q <= UNIT,
{
    let scaled = a * a * (UNIT * UNIT);
    assert(0 <= scaled <= len_sq * (UNIT * UNIT)) by (nonlinear_arith)
        requires
            scaled == a * a * (UNIT * UNIT),
            a * a <= len_sq,
    ;
    let ratio = scaled / len_sq;
    assert(ratio * len_sq <= scaled < (ratio + 1) * len_sq && 0 <= ratio <= UNIT * UNIT)
        by (nonlinear_arith)
        requires
            ratio == scaled / len_sq,
            0 < len_sq,
            0 <= scaled <= len_sq * (UNIT * UNIT),
    ;
    lemma_sqrt_floor(ratio as nat);
    let r = sqrt_floor(ratio as nat) as int;
    assert(r * r * len_sq <= scaled < (r + 1) * (r + 1) * len_sq && r <= 1_000_000)
        by (nonlinear_arith)
        requires
            0 <= r,
            r * r <= ratio < (r + 1) * (r + 1),
            ratio * len_sq <= scaled < (ratio + 1) * len_sq,
            0 < len_sq,
            ratio <= 1_000_000_000_000,
    ;
    assert(a == 0 ==> r == 0) by (nonlinear_arith)
        requires
            0 <= r,
            r * r * len_sq <= scaled,
            0 < len_sq,
            scaled == a * a * (UNIT * UNIT),
    ;
    if a >= 0 {
        r
    } else {
        assert((-r) * (-r) == r * r) by (nonlinear_arith);
        -r
    }
}

/// A coordinate has one share in a vector.
pub proof fn lemma_unit_share_unique(a: int, len_sq: int, q1: int, q2: int)
    requires
        0 < len_sq,
        is_unit_share(a, len_sq, q1),
        is_unit_share(a, len_sq, q2),
    ensures
        q1 == q2,
{
    let m1 = magnitude(q1);
    let m2 = magnitude(q2);
    let scaled = a * a * (UNIT * UNIT);
    assert(q1 * q1 == m1 * m1 && q2 * q2 == m2 * m2) by (nonlinear_arith)
        requires
            m1 == q1 || m1 == -q1,
            m2 == q2 || m2 == -q2,
    ;
    assert(m1 == m2) by (nonlinear_arith)
        requires
            0 <= m1,
            0 <= m2,
            0 < len_sq,
            m1 * m1 * len_sq <= scaled < (m1 + 1) * (m1 + 1) * len_sq,
            m2 * m2 * len_sq <= scaled < (m2 + 1) * (m2 + 1) * len_sq,
    ;
}

/// The square root of `n`, rounded down.
pub fn floor_sqrt(n: u64) -> (r: u64)
    ensures
        is_floor_sqrt(n as int, r as int),
{
    let mut lo: u64 = 0;
    let mut hi: u64 = 0x1_0000_0000;
    while hi - lo > 1
        invariant
            lo < hi <= 0x1_0000_0000,
            lo * lo <= n,
            n < hi * hi,
        decreases hi - lo,
    {
        let mid: u64 = lo + (hi - lo) / 2;
        assert(mid * mid < 0x1_0000_0000 * 0x1_0000_0000) by (nonlinear_arith)
            requires
                0 <= mid < 0x1_0000_0000,
        ;
        if mid * mid <= n {
            lo = mid;
        } else {
            hi = mid;
        }
    }
    lo
}

/// The magnitude of a coordinate.
fn magnitude_of(a: i64) -> (m: u64)
    requires
        a > i64::MIN,
    ensures
        m == magnitude(a as int),
{
    if a >= 0 {
        a as u64
    } else {
        (-a) as u64
    }
}

/// A value brought into the range of a position's coordinate.
pub fn clamp_to_bounds(v: i128) -> (c: i64)
    ensures
        c == clamp_coord(v as int),
{
    if v > COORD_LIMIT as i128 {
        COORD_LIMIT
    } else if v < -(COORD_LIMIT as i128) {
        -COORD_LIMIT
    } else {
        v as i64
    }
}

/// The share of the coordinate `a` in a vector of squared length `len_sq`.
fn unit_share(a: i64, len_sq: u128) -> (q: i64)
    requires
        -2 * COORD_LIMIT <= a <= 2 * COORD_LIMIT,
        0 < len_sq,
        a * a <= len_sq,
    ensures
        is_unit_share(a as int, len_sq as int, q as int),
        -UNIT <= q <= UNIT,
{
    let m: u128 = magnitude_of(a) as u128;
    let scale: u128 = 1_000_000_000_000;
    assert(m * m <= 4_000_000_000_000_000_000_000_000 && m * m == a * a) by (nonlinear_arith)
        requires
            0 <= m <= 2_000_000_000_000,
            m == a || m == -a,
    ;
    let squared: u128 = m * m;
    let scaled: u128 = squared * scale;
    let ratio: u128 = scaled / len_sq;
    assert(ratio * len_sq <= scaled < (ratio + 1) * len_sq && ratio <= scale) by (nonlinear_arith)
        requires
            ratio == scaled / len_sq,
            0 < len_sq,
            scaled == squared * scale,
            0 <= squared <= len_sq,
            0 <= scale,
    ;
    let r: u64 = floor_sqrt(ratio as u64);
    assert(r * r * len_sq <= scaled < (r + 1) * (r + 1) * len_sq && r <= 1_000_000)
        by (nonlinear_arith)
        requires
            0 <= r,
            r * r <= ratio < (r + 1) * (r + 1),
            ratio * len_sq <= scaled < (ratio + 1) * len_sq,
            0 < len_sq,
            ratio <= 1_000_000_000_000,
    ;
    assert(a * a * (UNIT * UNIT) == scaled) by (nonlinear_arith)
        requires
            scaled == squared * scale,
            squared == a * a,
            scale == UNIT * UNIT,
    ;
    assert(a == 0 ==> r == 0) by (nonlinear_arith)
        requires
            0 <= r,
            r * r <= ratio,
            ratio * len_sq <= scaled,
            0 < len_sq,
            scaled == a * a * (UNIT * UNIT),
    ;
    if a >= 0 {
        r as i64
    } else {
        let q: i64 = -(r as i64);
        assert(q * q == r * r) by (nonlinear_arith)
            requires
                q == -r,
        ;
        q
    }
}

/// How far a coordinate moves along the share `dir` of a direction.
fn travel_along(dir: i64, speed: u32, delta: u64) -> (d: i128)
    requires
        -UNIT <= dir <= UNIT,
    ensures
        d == travel(dir as int, speed as int, delta as int),
        -0x1_0000_0000_0000_0000_0000_0000 <= d <= 0x1_0000_0000_0000_0000_0000_0000,
{
    let m: u128 = magnitude_of(dir) as u128;
    assert(m * speed <= 0x10_0000 * 0x1_0000_0000 && m * speed * delta <= 0x10_0000 * 0x1_0000_0000
        * 0x1_0000_0000_0000_0000) by (nonlinear_arith)
        requires
            0 <= m <= 0x10_0000,
            0 <= speed < 0x1_0000_0000,
            0 <= delta < 0x1_0000_0000_0000_0000,
    ;
    let product: u128 = m * (speed as u128) * (delta as u128);
    let moved: u128 = product / (SPEED_SCALE as u128);
    assert(dir * speed * delta == if dir >= 0 {
        product as int
    } else {
        -(product as int)
    }) by (nonlinear_arith)
        requires
            product == m * speed * delta,
            m == dir || m == -dir,
            (dir >= 0 ==> m == dir) && (dir < 0 ==> m == -dir),
    ;
    assert(dir < 0 && product == 0 ==> dir * speed * delta >= 0);
    if dir >= 0 {
        moved as i128
    } else {
        -(moved as i128)
    }
}

impl Vec3 {
    /// The square of the Euclidean length.
    pub fn length_squared_of(&self) -> (len_sq: u128)
        requires
            self.within(2 * COORD_LIMIT),
        ensures
            len_sq == self.length_squared(),
    {
        let x: u128 = magnitude_of(self.x) as u128;
        let y: u128 = magnitude_of(self.y) as u128;
        let z: u128 = magnitude_of(self.z) as u128;
        assert(x * x == self.x * self.x && x * x <= 4_000_000_000_000_000_000_000_000)
            by (nonlinear_arith)
            requires
                x == self.x || x == -self.x,
                0 <= x <= 2_000_000_000_000,
        ;
        assert(y * y == self.y * self.y && y * y <= 4_000_000_000_000_000_000_000_000)
            by (nonlinear_arith)
            requires
                y == self.y || y == -self.y,
                0 <= y <= 2_000_000_000_000,
        ;
        assert(z * z == self.z * self.z && z * z <= 4_000_000_000_000_000_000_000_000)
            by (nonlinear_arith)
            requires
                z == self.z || z == -self.z,
                0 <= z <= 2_000_000_000_000,
        ;
        x * x + y * y + z * z
    }

    /// The displacement that leads from `from` to `self`.
    pub fn displacement(&self, from: &Vec3) -> (d: Vec3)
        requires
            self.in_bounds(),
            from.in_bounds(),
        ensures
            d == self.displacement_from(*from),
            d.within(2 * COORD_LIMIT),
            d.length_squared() == self.distance_squared(*from),
    {
        Vec3 { x: self.x - from.x, y: self.y - from.y, z: self.z - from.z }
    }

    /// The square of the Euclidean distance between two positions.
    pub fn distance_squared_to(&self, other: &Vec3) -> (dist_sq: u128)
        requires
            self.in_bounds(),
            other.in_bounds(),
        ensures
            dist_sq == self.distance_squared(*other),
    {
        self.displacement(other).length_squared_of()
    }

    /// The sum of a position and an offset, kept inside the simulated cube.
    pub fn offset(&self, offset: &Vec3) -> (p: Vec3)
        ensures
            p == self.offset_by(*offset),
            p.in_bounds(),
    {
        Vec3 {
            x: clamp_to_bounds(self.x as i128 + offset.x as i128),
            y: clamp_to_bounds(self.y as i128 + offset.y as i128),
            z: clamp_to_bounds(self.z as i128 + offset.z as i128),
        }
    }

    /// Every vector has a direction.
    pub proof fn lemma_direction_exists(self)
        ensures
            self.has_direction(self.direction()),
            self.direction().within(UNIT as int),
    {
        let len_sq = self.length_squared();
        if len_sq == 0 {
            assert(self.has_direction(Vec3::zero()));
        } else {
            assert(self.x * self.x >= 0 && self.y * self.y >= 0 && self.z * self.z >= 0)
                by (nonlinear_arith);
            let x = lemma_unit_share_exists(self.x as int, len_sq);
            let y = lemma_unit_share_exists(self.y as int, len_sq);
            let z = lemma_unit_share_exists(self.z as int, len_sq);
            let dir = Vec3 { x: x as i64, y: y as i64, z: z as i64 };
            assert(self.has_direction(dir));
            self.lemma_direction_unique(dir, self.direction());
        }
    }

    /// A vector has one direction.
    pub proof fn lemma_direction_unique(self, d1: Vec3, d2: Vec3)
        requires
            self.has_direction(d1),
            self.has_direction(d2),
        ensures
            d1 == d2,
    {
        let len_sq = self.length_squared();
        if len_sq != 0 {
            assert(self.x * self.x >= 0 && self.y * self.y >= 0 && self.z * self.z >= 0)
                by (nonlinear_arith);
            lemma_unit_share_unique(self.x as int, len_sq, d1.x as int, d2.x as int);
            lemma_unit_share_unique(self.y as int, len_sq, d1.y as int, d2.y as int);
            lemma_unit_share_unique(self.z as int, len_sq, d1.z as int, d2.z as int);
        }
    }

    /// The direction of a vector other than zero has unit length, up to the
    /// rounding of its coordinates.
    pub proof fn lemma_direction_has_unit_length(self, dir: Vec3)
        requires
            self.length_squared() != 0,
            self.has_direction(dir),
        ensures
            dir.is_unit(),
    {
        let len_sq = self.length_squared();
        let s = UNIT * UNIT;
        let (ax, ay, az) = (self.x * self.x, self.y * self.y, self.z * self.z);
        let (qx, qy, qz) = (dir.x * dir.x, dir.y * dir.y, dir.z * dir.z);
        let mx = (magnitude(dir.x as int) + 1) * (magnitude(dir.x as int) + 1);
        let my = (magnitude(dir.y as int) + 1) * (magnitude(dir.y as int) + 1);
        let mz = (magnitude(dir.z as int) + 1) * (magnitude(dir.z as int) + 1);
        assert(ax >= 0 && ay >= 0 && az >= 0) by (nonlinear_arith)
            requires
                ax == self.x * self.x,
                ay == self.y * self.y,
                az == self.z * self.z,
        ;
        assert(qx + qy + qz <= s && s < mx + my + mz) by (nonlinear_arith)
            requires
                0 < len_sq,
                len_sq == ax + ay + az,
                qx * len_sq <= ax * s < mx * len_sq,
                qy * len_sq <= ay * s < my * len_sq,
                qz * len_sq <= az * s < mz * len_sq,
        ;
    }

    /// No coordinate of a vector of unit length is longer than one unit.
    pub proof fn lemma_unit_is_short(self)
        requires
            self.is_unit(),
        ensures
            self.within(UNIT as int),
    {
        let (x, y, z) = (self.x as int, self.y as int, self.z as int);
        assert(-1_000_000 <= x <= 1_000_000 && -1_000_000 <= y <= 1_000_000 && -1_000_000 <= z
            <= 1_000_000) by (nonlinear_arith)
            requires
                x * x + y * y + z * z <= 1_000_000 * 1_000_000,
        ;
    }

    /// Whether the vector has unit length, up to the rounding of its
    /// coordinates.
    pub fn is_unit_length(&self) -> (unit: bool)
        ensures
            unit == self.is_unit(),
    {
        if !(-UNIT <= self.x && self.x <= UNIT && -UNIT <= self.y && self.y <= UNIT && -UNIT
            <= self.z && self.z <= UNIT) {
            proof {
                if self.is_unit() {
                    self.lemma_unit_is_short();
                }
            }
            return false;
        }
        let one: u128 = 1_000_000_000_000;
        let grown = Vec3 {
            x: (magnitude_of(self.x) + 1) as i64,
            y: (magnitude_of(self.y) + 1) as i64,
            z: (magnitude_of(self.z) + 1) as i64,
        };
        self.length_squared_of() <= one && one < grown.length_squared_of()
    }

    /// The direction of a displacement: the vector of unit length that
    /// points the same way, each coordinate rounded toward zero. The zero
    /// vector has no direction and gives the zero vector.
    pub fn normalize(&self) -> (dir: Vec3)
        requires
            self.within(2 * COORD_LIMIT),
        ensures
            self.has_direction(dir),
            dir == self.direction(),
            dir.within(UNIT as int),
            self.length_squared() != 0 ==> dir.is_unit(),
    {
        let len_sq: u128 = self.length_squared_of();
        let dir = if len_sq == 0 {
            Vec3 { x: 0, y: 0, z: 0 }
        } else {
            assert(self.x * self.x >= 0 && self.y * self.y >= 0 && self.z * self.z >= 0)
                by (nonlinear_arith);
            Vec3 {
                x: unit_share(self.x, len_sq),
                y: unit_share(self.y, len_sq),
                z: unit_share(self.z, len_sq),
            }
        };
        proof {
            self.lemma_direction_unique(dir, self.direction());
            if len_sq != 0 {
                self.lemma_direction_has_unit_length(dir);
            }
        }
        dir
    }

    /// The point reached from `self` along `dir` at `speed` thousandths of a
    /// unit per second in `delta` nanoseconds, kept inside the simulated
    /// cube.
    pub fn advance(&self, dir: &Vec3, speed: u32, delta: u64) -> (p: Vec3)
        requires
            dir.within(UNIT as int),
        ensures
            p == self.advanced(*dir, speed, delta),
            p.in_bounds(),
    {
        Vec3 {
            x: clamp_to_bounds(self.x as i128 + travel_along(dir.x, speed, delta)),
            y: clamp_to_bounds(self.y as i128 + travel_along(dir.y, speed, delta)),
            z: clamp_to_bounds(self.z as i128 + travel_along(dir.z, speed, delta)),
        }
    }
}


} // verus!
