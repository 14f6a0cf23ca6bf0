//! Fixed-point arithmetic of the arena: square roots, radii, clamping,
//! decay, proximity and direction offsets.
//!
//! Lengths, masses, rates and tolerances are counted in thousandths: a
//! world 3000 units wide has a width of 3 000 000, a rate of 0.998 is 998.
//! Every function here takes the whole range of its argument types.

use vstd::prelude::*;

verus! {

/// Thousandths in one game unit.
pub const UNIT: u32 = 1_000;

/// Width of the world.
pub const WORLD_WIDTH: i32 = 3_000_000;

/// Height of the world.
pub const WORLD_HEIGHT: i32 = 3_000_000;

/// Number of food pellets the world is seeded with.
pub const MAX_FOOD: u32 = 200;

/// Radius of every food pellet.
pub const FOOD_RADIUS: u32 = 6_000;

/// Mass of a freshly spawned player; also the floor of player decay.
pub const INITIAL_MASS: u32 = 100_000;

/// Floor of split-cell decay: half the initial mass.
pub const CELL_FLOOR_MASS: u32 = 50_000;

/// Mass gained by eating one food pellet.
pub const FOOD_MASS: u32 = 1_000;

/// Mass of one ejected pellet.
pub const EJECT_MASS_AMOUNT: u32 = 10_000;

/// Least mass a player needs in order to split.
pub const MIN_SPLIT_MASS: u32 = 200_000;

/// Fraction of its mass that an entity keeps at each decay tick.
pub const MASS_DECAY_RATE: u32 = 998;

/// Leeway factor of every proximity test.
pub const EAT_TOLERANCE: u32 = 2_000;

/// Distance from the world's edge kept by a spawning player.
pub const SPAWN_MARGIN: i32 = 100_000;

/// Distance from the world's edge kept by food pellets.
pub const FOOD_MARGIN: i32 = 20_000;

/// Distance from the world's edge kept by ejected pellets.
pub const EJECT_MARGIN: i32 = 20_000;

/// Distance from the world's edge kept by a new split cell.
pub const SPLIT_MARGIN: i32 = 50_000;

/// Distance at which an ejected pellet lands from its player.
pub const EJECT_DISTANCE: u32 = 300_000;

/// A direction shorter than this is no direction at all.
pub const DIRECTION_EPSILON: u32 = 1;

/// Largest mass an entity can hold; gains beyond it are lost.
pub const MASS_LIMIT: u32 = 0xffff_ffff;

/// `r` is the square root of `n`, rounded down.
pub open spec fn is_floor_sqrt(n: nat, r: nat) -> bool {
    r * r <= n && n < (r + 1) * (r + 1)
}

/// The square root of `n`, rounded down.
pub open spec fn floor_sqrt(n: nat) -> nat {
    choose|r: nat| is_floor_sqrt(n, r)
}

/// A number has one rounded-down square root, and `floor_sqrt` is it.
pub proof fn lemma_floor_sqrt_unique(n: nat, r: nat)
    requires
        is_floor_sqrt(n, r),
    ensures
        floor_sqrt(n) == r,
{
    let c = floor_sqrt(n);
    assert(is_floor_sqrt(n, c));
    if c < r {
        lemma_square_le(c + 1, r);
    } else if r < c {
        lemma_square_le(r + 1, c);
    }
}

/// Squaring is monotonic on the naturals.
pub proof fn lemma_square_le(a: nat, b: nat)
    requires
        a <= b,
    ensures
        a * a <= b * b,
{
    assert(a * a <= b * b) by (nonlinear_arith)
        requires
            a <= b,
    ;
}

/// Every number has a rounded-down square root.
pub proof fn lemma_floor_sqrt_exists(n: nat)
    ensures
        is_floor_sqrt(n, floor_sqrt(n)),
    decreases n,
{
    if n == 0 {
        assert(is_floor_sqrt(0, 0)) by (nonlinear_arith);
    } else {
        lemma_floor_sqrt_exists((n - 1) as nat);
        let r = floor_sqrt((n - 1) as nat);
        if n < (r + 1) * (r + 1) {
            assert(is_floor_sqrt(n, r));
        } else {
            assert((r + 2) * (r + 2) > (r + 1) * (r + 1)) by (nonlinear_arith);
            assert(is_floor_sqrt(n, r + 1));
        }
    }
}

/// The rounded-down square root is monotonic.
pub proof fn lemma_floor_sqrt_monotonic(a: nat, b: nat)
    requires
        a <= b,
    ensures
        floor_sqrt(a) <= floor_sqrt(b),
{
    lemma_floor_sqrt_exists(a);
    lemma_floor_sqrt_exists(b);
    let ra = floor_sqrt(a);
    let rb = floor_sqrt(b);
    if rb < ra {
        lemma_square_le(rb + 1, ra);
    }
}

/// Square root of `n`, rounded down.
pub fn int_sqrt(n: u128) -> (r: u64)
    ensures
        r == floor_sqrt(n as nat),
        is_floor_sqrt(n as nat, r as nat),
{
    let mut lo: u128 = 0;
    let mut hi: u128 = 0x1_0000_0000_0000_0000;
    while hi - lo > 1
        invariant
            lo < hi <= 0x1_0000_0000_0000_0000,
            lo * lo <= n,
            n < hi * hi,
        decreases hi - lo,
    {
        let mid: u128 = lo + (hi - lo) / 2;
        assert(mid * mid <= 0xffff_ffff_ffff_ffff * 0xffff_ffff_ffff_ffff) by (nonlinear_arith)
            requires
                0 <= mid <= 0xffff_ffff_ffff_ffff,
        ;
        if mid * mid <= n {
            lo = mid;
        } else {
            hi = mid;
        }
    }
    proof {
        lemma_floor_sqrt_unique(n as nat, lo as nat);
    }
    lo as u64
}

/// The rounded-down square root of a number below `bound * bound` is below
/// `bound`.
pub proof fn lemma_floor_sqrt_below(n: nat, bound: nat)
    requires
        n < bound * bound,
    ensures
        floor_sqrt(n) < bound,
{
    lemma_floor_sqrt_exists(n);
    if floor_sqrt(n) >= bound {
        lemma_square_le(bound, floor_sqrt(n));
    }
}

/// Radius of a circle of the given mass: twice the square root of the mass,
/// rounded down to the thousandth. In thousandths, twice the root of
/// `mass / 1000` is the root of `4000 * mass`.
pub open spec fn radius_of(mass: nat) -> nat {
    floor_sqrt(4_000 * mass)
}

/// A heavier circle is never smaller.
pub proof fn lemma_radius_monotonic(light: nat, heavy: nat)
    requires
        light <= heavy,
    ensures
        radius_of(light) <= radius_of(heavy),
{
    lemma_floor_sqrt_monotonic(4_000 * light, 4_000 * heavy);
}

/// No mass within the limit makes a circle of radius 2^22 thousandths or more.
pub proof fn lemma_radius_bound(mass: nat)
    requires
        mass <= MASS_LIMIT,
    ensures
        radius_of(mass) < 0x40_0000,
{
    let n = 4_000 * mass;
    lemma_floor_sqrt_exists(n);
    let r = floor_sqrt(n);
    if r >= 0x40_0000 {
        lemma_square_le(0x40_0000, r);
        assert(0x40_0000nat * 0x40_0000nat == 0x1000_0000_0000) by (nonlinear_arith);
    }
}

/// Radius of a circle of the given mass.
pub fn mass_to_radius(mass: u32) -> (radius: u32)
    ensures
        radius == radius_of(mass as nat),
        radius < 0x40_0000,
{
    proof {
        lemma_radius_bound(mass as nat);
    }
    let scaled: u128 = 4_000 * (mass as u128);
    int_sqrt(scaled) as u32
}

/// The sum of masses, cut off at the mass limit.
pub open spec fn capped(total: int) -> nat {
    if total < 0 {
        0
    } else if total > MASS_LIMIT {
        MASS_LIMIT as nat
    } else {
        total as nat
    }
}

/// Adds a gain to a mass; what would pass the mass limit is lost.
pub fn add_mass(mass: u32, gain: u32) -> (sum: u32)
    ensures
        sum == capped(mass + gain),
{
    mass.saturating_add(gain)
}

/// `v` moved by the least distance that brings it into `[lo, hi]`; `lo`
/// where the interval is empty and `v` lies below it.
pub open spec fn clamped(v: int, lo: int, hi: int) -> int {
    if v < lo {
        lo
    } else if v > hi {
        hi
    } else {
        v
    }
}

/// Clamps a coordinate into `[lo, hi]`.
pub fn clamp(v: i64, lo: i32, hi: i32) -> (r: i32)
    ensures
        r == clamped(v as int, lo as int, hi as int),
        lo <= hi ==> lo <= r <= hi,
{
    if v < lo as i64 {
        lo
    } else if v > hi as i64 {
        hi
    } else {
        v as i32
    }
}

/// What is left of `mass` after one decay step at `rate` thousandths, never
/// less than `floor` and never more than the mass limit.
pub open spec fn decayed(mass: nat, rate: nat, floor: nat) -> nat {
    let kept = capped((mass * rate) as int / UNIT as int);
    if kept < floor {
        floor
    } else {
        kept
    }
}

/// One decay step: the mass times the rate, but at least the floor.
pub fn decay(mass: u32, rate: u32, floor: u32) -> (left: u32)
    ensures
        left == decayed(mass as nat, rate as nat, floor as nat),
        left >= floor,
{
    assert(mass * rate <= 0xffff_ffff * 0xffff_ffff) by (nonlinear_arith)
        requires
            0 <= mass <= 0xffff_ffff,
            0 <= rate <= 0xffff_ffff,
    ;
    let product: u64 = (mass as u64) * (rate as u64);
    let share: u64 = product / (UNIT as u64);
    let kept: u32 = if share > MASS_LIMIT as u64 {
        MASS_LIMIT
    } else {
        share as u32
    };
    if kept < floor {
        floor
    } else {
        kept
    }
}

/// Decay at a rate of at most one never adds mass above the floor.
pub proof fn lemma_decay_shrinks(mass: nat, rate: nat, floor: nat)
    requires
        rate <= UNIT,
        floor <= mass <= MASS_LIMIT,
    ensures
        floor <= decayed(mass, rate, floor) <= mass,
{
    assert((mass * rate) as int / 1000 <= mass) by (nonlinear_arith)
        requires
            rate <= 1000,
    ;
}

/// Squared distance between two points.
pub open spec fn distance_squared(ax: int, ay: int, bx: int, by: int) -> int {
    (ax - bx) * (ax - bx) + (ay - by) * (ay - by)
}

/// Two circles are within reach of each other: the distance between their
/// centres is at most the sum of the radii times the tolerance. With the
/// tolerance in thousandths, that is `distance * 1000 <= tolerance * (ar +
/// br)`, compared here by the squares.
pub open spec fn within_reach(
    ax: int,
    ay: int,
    ar: int,
    bx: int,
    by: int,
    br: int,
    tolerance: int,
) -> bool {
    let reach = tolerance * (ar + br);
    distance_squared(ax, ay, bx, by) * (UNIT * UNIT) <= reach * reach
}

/// Proximity test of two circles with a tolerance factor in thousandths.
pub fn overlaps(
    ax: i32,
    ay: i32,
    ar: u32,
    bx: i32,
    by: i32,
    br: u32,
    tolerance: u32,
) -> (near: bool)
    ensures
        near == within_reach(
            ax as int,
            ay as int,
            ar as int,
            bx as int,
            by as int,
            br as int,
            tolerance as int,
        ),
{
    let dx: i128 = ax as i128 - bx as i128;
    let dy: i128 = ay as i128 - by as i128;
    assert(dx * dx <= 0x1_0000_0000 * 0x1_0000_0000) by (nonlinear_arith)
        requires
            -0x1_0000_0000 <= dx <= 0x1_0000_0000,
    ;
    assert(dy * dy <= 0x1_0000_0000 * 0x1_0000_0000) by (nonlinear_arith)
        requires
            -0x1_0000_0000 <= dy <= 0x1_0000_0000,
    ;
    assert(dx * dx >= 0) by (nonlinear_arith);
    assert(dy * dy >= 0) by (nonlinear_arith);
    let gap: i128 = (dx * dx + dy * dy) * 1_000_000;
    let radii: i128 = ar as i128 + br as i128;
    assert(tolerance * radii <= 0xffff_ffff * 0x1_ffff_fffe) by (nonlinear_arith)
        requires
            0 <= tolerance <= 0xffff_ffff,
            0 <= radii <= 0x1_ffff_fffe,
    ;
    let reach: i128 = tolerance as i128 * radii;
    if reach >= 0x1000_0000_0000 {
        assert(reach * reach >= 0x1000_0000_0000 * 0x1000_0000_0000) by (nonlinear_arith)
            requires
                reach >= 0x1000_0000_0000,
        ;
        true
    } else {
        assert(reach * reach <= 0x1000_0000_0000 * 0x1000_0000_0000) by (nonlinear_arith)
            requires
                0 <= reach <= 0x1000_0000_0000,
        ;
        gap <= reach * reach
    }
}

/// Square of the length of a vector.
pub open spec fn length_squared(dx: int, dy: int) -> int {
    dx * dx + dy * dy
}

/// Length of a direction vector, rounded down to the thousandth.
pub open spec fn length_of(dx: int, dy: int) -> nat {
    floor_sqrt(length_squared(dx, dy) as nat)
}

/// The vector has a length that can be told from nothing: one thousandth
/// at least.
pub open spec fn has_direction(dx: int, dy: int) -> bool {
    length_of(dx, dy) >= DIRECTION_EPSILON
}

/// A vector has a direction unless both of its components are zero.
pub proof fn lemma_direction_iff_nonzero(dx: int, dy: int)
    ensures
        has_direction(dx, dy) <==> length_squared(dx, dy) > 0,
        length_squared(dx, dy) >= 0,
{
    assert(dx * dx >= 0 && dy * dy >= 0) by (nonlinear_arith);
    let n = length_squared(dx, dy) as nat;
    lemma_floor_sqrt_exists(n);
    let len = floor_sqrt(n);
    if n > 0 && len == 0 {
        assert(is_floor_sqrt(n, 0));
        assert((0 + 1) * (0 + 1) == 1) by (nonlinear_arith);
    }
    if len >= 1 {
        lemma_square_le(1, len);
        assert(1nat * 1nat == 1) by (nonlinear_arith);
    }
}

/// Length of a direction vector, rounded down to the thousandth.
pub fn direction_length(dx: i32, dy: i32) -> (len: u32)
    ensures
        len == length_of(dx as int, dy as int),
{
    let squares = squared_length(dx, dy);
    proof {
        assert(0x1_0000_0000nat * 0x1_0000_0000nat == 0x1_0000_0000_0000_0000) by (nonlinear_arith);
        lemma_floor_sqrt_below(squares as nat, 0x1_0000_0000);
    }
    int_sqrt(squares) as u32
}

/// Square of the length of a vector.
pub fn squared_length(dx: i32, dy: i32) -> (squares: u128)
    ensures
        squares == length_squared(dx as int, dy as int),
        squares <= 0x8000_0000_0000_0000,
{
    let x: i64 = dx as i64;
    let y: i64 = dy as i64;
    assert(0 <= x * x <= 0x8000_0000 * 0x8000_0000) by (nonlinear_arith)
        requires
            -0x8000_0000 <= x <= 0x8000_0000,
    ;
    assert(0 <= y * y <= 0x8000_0000 * 0x8000_0000) by (nonlinear_arith)
        requires
            -0x8000_0000 <= y <= 0x8000_0000,
    ;
    (x * x) as u128 + (y * y) as u128
}

/// The size of the share of `distance` that falls to a component `d` of
/// the vector `(dx, dy)`: `|d| * distance` over the length of the vector,
/// rounded down. It is the largest `o` with
/// `o * o * (dx * dx + dy * dy) <= d * d * distance * distance`, which is
/// how it is written here: as the rounded-down root of the quotient.
pub open spec fn share_of(d: int, dx: int, dy: int, distance: int) -> nat {
    floor_sqrt(((d * d) * (distance * distance) / length_squared(dx, dy)) as nat)
}

/// The share of `distance` that falls to one component `d` of the vector
/// `(dx, dy)`: the component of the normalized vector times the distance,
/// rounded toward zero. Zero where the vector is zero.
pub open spec fn offset_of(d: int, dx: int, dy: int, distance: int) -> int {
    if length_squared(dx, dy) <= 0 {
        0
    } else if d >= 0 {
        share_of(d, dx, dy, distance) as int
    } else {
        -(share_of(d, dx, dy, distance) as int)
    }
}

/// The share is the exact value rounded down: its square times the squared
/// length of the vector is at most the squared component times the squared
/// distance, and the next number's is more.
pub proof fn lemma_share_is_largest(d: int, dx: int, dy: int, distance: int)
    requires
        length_squared(dx, dy) > 0,
    ensures
        ({
            let o = share_of(d, dx, dy, distance);
            &&& o * o * length_squared(dx, dy) <= (d * d) * (distance * distance)
            &&& (d * d) * (distance * distance) < (o + 1) * (o + 1) * length_squared(dx, dy)
        }),
{
    let n = length_squared(dx, dy);
    let a = (d * d) * (distance * distance);
    assert(a >= 0) by (nonlinear_arith)
        requires
            a == (d * d) * (distance * distance),
    ;
    let q = a / n;
    assert(0 <= q && q * n <= a < (q + 1) * n) by (nonlinear_arith)
        requires
            q == a / n,
            n > 0,
            a >= 0,
    ;
    lemma_floor_sqrt_exists(q as nat);
    let o = floor_sqrt(q as nat);
    assert(o * o * n <= q * n) by (nonlinear_arith)
        requires
            o * o <= q,
            n > 0,
    ;
    assert((q + 1) * n <= (o + 1) * (o + 1) * n) by (nonlinear_arith)
        requires
            q + 1 <= (o + 1) * (o + 1),
            n > 0,
    ;
}

/// A displacement is no longer than the distance asked for: the squares of
/// the shares of the two components add up to the square of the distance
/// at most, and so neither share is larger than the distance.
pub proof fn lemma_displacement_within_distance(dx: int, dy: int, distance: int)
    requires
        distance >= 0,
    ensures
        ({
            let ox = offset_of(dx, dx, dy, distance);
            let oy = offset_of(dy, dx, dy, distance);
            &&& ox * ox + oy * oy <= distance * distance
            &&& -distance <= ox <= distance
            &&& -distance <= oy <= distance
        }),
{
    let n = length_squared(dx, dy);
    let ox = offset_of(dx, dx, dy, distance);
    let oy = offset_of(dy, dx, dy, distance);
    let dd = distance * distance;
    assert(dx * dx >= 0 && dy * dy >= 0 && dd >= 0) by (nonlinear_arith)
        requires
            dd == distance * distance,
    ;
    if n > 0 {
        lemma_share_is_largest(dx, dx, dy, distance);
        lemma_share_is_largest(dy, dx, dy, distance);
        let sx = share_of(dx, dx, dy, distance);
        let sy = share_of(dy, dx, dy, distance);
        assert(ox * ox == sx * sx) by (nonlinear_arith)
            requires
                ox == sx || ox == -sx,
        ;
        assert(oy * oy == sy * sy) by (nonlinear_arith)
            requires
                oy == sy || oy == -sy,
        ;
        let xx = sx * sx;
        let yy = sy * sy;
        assert(xx + yy <= dd) by (nonlinear_arith)
            requires
                xx * n <= (dx * dx) * dd,
                yy * n <= (dy * dy) * dd,
                n == dx * dx + dy * dy,
                n > 0,
        ;
        assert(xx >= 0 && yy >= 0) by (nonlinear_arith)
            requires
                xx == sx * sx,
                yy == sy * sy,
        ;
        assert(sx <= distance) by (nonlinear_arith)
            requires
                sx * sx <= distance * distance,
                sx >= 0,
                distance >= 0,
        ;
        assert(sy <= distance) by (nonlinear_arith)
            requires
                sy * sy <= distance * distance,
                sy >= 0,
                distance >= 0,
        ;
    } else {
        assert(ox * ox + oy * oy == 0) by (nonlinear_arith)
            requires
                ox == 0,
                oy == 0,
        ;
    }
}

/// A displacement falls short of the distance asked for by less than one
/// thousandth on each axis: with each share one larger, the squares add up
/// to more than the square of the distance.
pub proof fn lemma_displacement_reaches_distance(dx: int, dy: int, distance: int)
    requires
        length_squared(dx, dy) > 0,
    ensures
        ({
            let sx = share_of(dx, dx, dy, distance);
            let sy = share_of(dy, dx, dy, distance);
            (sx + 1) * (sx + 1) + (sy + 1) * (sy + 1) > distance * distance
        }),
{
    let n = length_squared(dx, dy);
    let dd = distance * distance;
    lemma_share_is_largest(dx, dx, dy, distance);
    lemma_share_is_largest(dy, dx, dy, distance);
    let sx = share_of(dx, dx, dy, distance);
    let sy = share_of(dy, dx, dy, distance);
    let xx = (sx + 1) * (sx + 1);
    let yy = (sy + 1) * (sy + 1);
    assert(xx + yy > dd) by (nonlinear_arith)
        requires
            (dx * dx) * dd < xx * n,
            (dy * dy) * dd < yy * n,
            n == dx * dx + dy * dy,
            n > 0,
    ;
}

/// Displacement along one axis when moving `distance` in the direction
/// `(dx, dy)`: `d` is the component of the direction on that axis.
pub fn offset_along(d: i32, dx: i32, dy: i32, distance: u32) -> (offset: i64)
    ensures
        offset == offset_of(d as int, dx as int, dy as int, distance as int),
{
    let n = squared_length(dx, dy);
    if n == 0 {
        return 0;
    }
    let size: i64 = d as i64;
    assert(0 <= size * size <= 0x8000_0000 * 0x8000_0000) by (nonlinear_arith)
        requires
            -0x8000_0000 <= size <= 0x8000_0000,
    ;
    let dd: u128 = (size * size) as u128;
    assert(distance * distance <= 0xffff_ffff * 0xffff_ffff) by (nonlinear_arith)
        requires
            0 <= distance <= 0xffff_ffff,
    ;
    let reach: u128 = (distance as u128) * (distance as u128);
    assert(0 <= dd * reach <= 0x4000_0000_0000_0000 * (0xffff_ffff * 0xffff_ffff))
        by (nonlinear_arith)
        requires
            0 <= dd <= 0x4000_0000_0000_0000,
            0 <= reach <= 0xffff_ffff * 0xffff_ffff,
    ;
    let quotient: u128 = dd * reach / n;
    proof {
        assert(quotient <= dd * reach) by (nonlinear_arith)
            requires
                quotient == (dd * reach) as int / n as int,
                n >= 1,
                dd * reach >= 0,
        ;
        assert(0x8000_0000_0000_0000nat * 0x8000_0000_0000_0000nat
            == 0x4000_0000_0000_0000_0000_0000_0000_0000) by (nonlinear_arith);
        lemma_floor_sqrt_below(quotient as nat, 0x8000_0000_0000_0000);
    }
    let share = int_sqrt(quotient);
    if d >= 0 {
        share as i64
    } else {
        -(share as i64)
    }
}

/// Where a coordinate `p` ends up after moving `distance` in the direction
/// `(dx, dy)`, of which `d` is the component on the coordinate's axis.
pub open spec fn moved_along(p: int, d: int, dx: int, dy: int, distance: int) -> int {
    p + offset_of(d, dx, dy, distance)
}

/// The point at `distance` from `(px, py)` in the direction `(dx, dy)`, each
/// coordinate rounded toward `(px, py)`, or nothing where the vector gives no
/// direction.
pub fn displaced(px: i32, py: i32, dx: i32, dy: i32, distance: u32) -> (target: Option<(i64, i64)>)
    ensures
        target.is_some() == has_direction(dx as int, dy as int),
        target.is_some() ==> target.unwrap().0 == moved_along(
            px as int,
            dx as int,
            dx as int,
            dy as int,
            distance as int,
        ) && target.unwrap().1 == moved_along(
            py as int,
            dy as int,
            dx as int,
            dy as int,
            distance as int,
        ),
{
    let len = direction_length(dx, dy);
    if len < DIRECTION_EPSILON {
        return None;
    }
    proof {
        lemma_displacement_within_distance(dx as int, dy as int, distance as int);
    }
    let x: i64 = px as i64 + offset_along(dx, dx, dy, distance);
    let y: i64 = py as i64 + offset_along(dy, dx, dy, distance);
    Some((x, y))
}

} // verus!
