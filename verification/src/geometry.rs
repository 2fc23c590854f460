//! Planar fixed-point vector math: addition, scaling, squared distance,
//! integer square root, magnitude and normalization.
//!
//! Coordinates are milli-units: one playfield unit is `MILLI` milli-units.
//! Directions are near-unit vectors whose components are also scaled by
//! `MILLI`, so a direction of `(MILLI, 0)` points along the positive x axis
//! at unit length.

use vstd::prelude::*;

verus! {

/// Fixed-point scale: milli-units per playfield unit.
pub const MILLI: i64 = 1000;

/// Largest coordinate magnitude the vector operations accept; keeps every
/// product and sum of squares inside `i64`.
pub const COORD_LIMIT: i64 = 1_000_000_000;

/// A planar vector in milli-unit coordinates.
#[derive(Clone, Copy, PartialEq, Eq, Structural, Debug)]
pub struct Vec2 {
    pub x: i64,
    pub y: i64,
}

/// Absolute value over the mathematical integers.
pub open spec fn abs_i(a: int) -> int {
    if a < 0 { -a } else { a }
}

/// Integer square root: the unique `r` with `r * r <= n < (r + 1) * (r + 1)`.
pub open spec fn spec_isqrt(n: nat) -> nat
    decreases n,
{
    if n == 0 {
        0
    } else {
        let r = spec_isqrt((n - 1) as nat);
        if (r + 1) * (r + 1) <= n {
            r + 1
        } else {
            r
        }
    }
}

/// `spec_isqrt` really is the integer square root.
pub proof fn lemma_isqrt_bounds(n: nat)
    ensures
        spec_isqrt(n) * spec_isqrt(n) <= n,
        n < (spec_isqrt(n) + 1) * (spec_isqrt(n) + 1),
    decreases n,
{
    if n == 0 {
        assert(spec_isqrt(0nat) == 0nat);
        assert(n < (spec_isqrt(n) + 1) * (spec_isqrt(n) + 1)) by (nonlinear_arith)
            requires
                n == 0,
                spec_isqrt(n) == 0,
        {
        }
    } else {
        lemma_isqrt_bounds((n - 1) as nat);
        let r = spec_isqrt((n - 1) as nat);
        if (r + 1) * (r + 1) <= n {
            assert(spec_isqrt(n) == r + 1);
            assert(n < (r + 2) * (r + 2)) by (nonlinear_arith)
                requires
                    n <= (r + 1) * (r + 1),
            {
            }
            assert((r + 2) * (r + 2) == (spec_isqrt(n) + 1) * (spec_isqrt(n) + 1));
        } else {
            assert(spec_isqrt(n) == r);
            assert((spec_isqrt(n) + 1) * (spec_isqrt(n) + 1) == (r + 1) * (r + 1));
        }
    }
}

/// Any `r` in square-root position equals `spec_isqrt(n)`.
pub proof fn lemma_isqrt_unique(n: nat, r: nat)
    requires
        r * r <= n,
        n < (r + 1) * (r + 1),
    ensures
        r == spec_isqrt(n),
{
    let s = spec_isqrt(n);
    lemma_isqrt_bounds(n);
    assert(r == s) by (nonlinear_arith)
        requires
            r * r <= n,
            n < (r + 1) * (r + 1),
            s * s <= n,
            n < (s + 1) * (s + 1),
    {
    }
}

/// Executable integer square root by bisection.
pub fn isqrt_u128(n: u128) -> (r: u128)
    requires
        n < 0x4000_0000_0000_0000_0000_0000_0000_0000u128,
    ensures
        r as nat == spec_isqrt(n as nat),
        (r * r) as nat <= n as nat,
        (n as nat) < ((r as nat) + 1) * ((r as nat) + 1),
{
    let mut lo: u128 = 0;
    let mut hi: u128 = 0x8000_0000_0000_0000u128;
    while hi - lo > 1
        invariant
            lo < hi,
            hi <= 0x8000_0000_0000_0000u128,
            (lo * lo) as nat <= n as nat,
            (n as nat) < (hi as nat) * (hi as nat),
        decreases hi - lo,
    {
        let mid: u128 = lo + (hi - lo) / 2;
        proof {
            assert(mid * mid <= 0x8000_0000_0000_0000 * 0x8000_0000_0000_0000) by (nonlinear_arith)
                requires
                    0 <= mid <= 0x8000_0000_0000_0000,
            {
            }
        }
        if mid * mid <= n {
            lo = mid;
        } else {
            hi = mid;
        }
    }
    proof {
        assert((n as nat) < ((lo as nat) + 1) * ((lo as nat) + 1));
        lemma_isqrt_unique(n as nat, lo as nat);
    }
    lo
}

impl Vec2 {
    /// The zero vector.
    pub fn zero() -> (r: Vec2)
        ensures
            r.x == 0,
            r.y == 0,
    {
        Vec2 { x: 0, y: 0 }
    }

    /// Both components within `limit` in magnitude.
    pub open spec fn bounded(self, limit: int) -> bool {
        abs_i(self.x as int) <= limit && abs_i(self.y as int) <= limit
    }

    /// Squared Euclidean length, in squared milli-units.
    pub open spec fn spec_len_sq(self) -> int {
        self.x * self.x + self.y * self.y
    }

    /// Component-wise sum.
    pub fn add(self, other: Vec2) -> (r: Vec2)
        requires
            self.bounded(COORD_LIMIT as int),
            other.bounded(COORD_LIMIT as int),
        ensures
            r.x == self.x + other.x,
            r.y == self.y + other.y,
    {
        Vec2 { x: self.x + other.x, y: self.y + other.y }
    }

    /// Scalar multiply.
    pub fn scale(self, k: i64) -> (r: Vec2)
        requires
            self.bounded(COORD_LIMIT as int),
            abs_i(k as int) <= MILLI as int,
        ensures
            r.x == self.x * k,
            r.y == self.y * k,
    {
        proof {
            assert(abs_i(self.x as int) * abs_i(k as int) <= 1_000_000_000 * 1000) by (nonlinear_arith)
                requires
                    abs_i(self.x as int) <= 1_000_000_000,
                    abs_i(k as int) <= 1000,
            {
            }
            assert(abs_i(self.y as int) * abs_i(k as int) <= 1_000_000_000 * 1000) by (nonlinear_arith)
                requires
                    abs_i(self.y as int) <= 1_000_000_000,
                    abs_i(k as int) <= 1000,
            {
            }
            assert(abs_i(self.x * k) == abs_i(self.x as int) * abs_i(k as int)) by (nonlinear_arith);
            assert(abs_i(self.y * k) == abs_i(self.y as int) * abs_i(k as int)) by (nonlinear_arith);
        }
        Vec2 { x: self.x * k, y: self.y * k }
    }

    /// Squared length, exactly `spec_len_sq`.
    pub fn len_sq(self) -> (r: i64)
        requires
            self.bounded(COORD_LIMIT as int),
        ensures
            r == self.spec_len_sq(),
            r >= 0,
    {
        proof {
            lemma_sq_bound(self.x as int, COORD_LIMIT as int);
            lemma_sq_bound(self.y as int, COORD_LIMIT as int);
        }
        self.x * self.x + self.y * self.y
    }

    /// Squared distance to `other`.
    pub fn dist_sq(self, other: Vec2) -> (r: i64)
        requires
            self.bounded(COORD_LIMIT as int),
            other.bounded(COORD_LIMIT as int),
        ensures
            r == spec_dist_sq(self, other),
            r >= 0,
    {
        let dx: i64 = self.x - other.x;
        let dy: i64 = self.y - other.y;
        proof {
            lemma_sq_bound(dx as int, 2 * COORD_LIMIT as int);
            lemma_sq_bound(dy as int, 2 * COORD_LIMIT as int);
        }
        dx * dx + dy * dy
    }

    /// Euclidean length in milli-units, rounded down.
    pub fn magnitude(self) -> (r: i64)
        requires
            self.bounded(COORD_LIMIT as int),
        ensures
            r as nat == spec_isqrt(self.spec_len_sq() as nat),
    {
        proof {
            lemma_sq_bound(self.x as int, COORD_LIMIT as int);
            lemma_sq_bound(self.y as int, COORD_LIMIT as int);
        }
        let s: i64 = self.len_sq();
        let root: u128 = isqrt_u128(s as u128);
        proof {
            lemma_isqrt_le(s as nat, 4_000_000_000_000_000_000nat);
            assert(spec_isqrt(4_000_000_000_000_000_000nat) <= 2_000_000_000nat) by {
                lemma_isqrt_bounds(4_000_000_000_000_000_000nat);
                assert(spec_isqrt(4_000_000_000_000_000_000nat) * spec_isqrt(4_000_000_000_000_000_000nat)
                    <= 4_000_000_000_000_000_000nat);
                if spec_isqrt(4_000_000_000_000_000_000nat) > 2_000_000_000nat {
                    assert(spec_isqrt(4_000_000_000_000_000_000nat) * spec_isqrt(4_000_000_000_000_000_000nat)
                        > 4_000_000_000_000_000_000nat) by (nonlinear_arith)
                        requires
                            spec_isqrt(4_000_000_000_000_000_000nat) > 2_000_000_000nat,
                    {
                    }
                }
            }
        }
        root as i64
    }

    /// Euclidean distance to `other` in milli-units, rounded down.
    pub fn distance(self, other: Vec2) -> (r: i64)
        requires
            self.bounded(COORD_LIMIT as int),
            other.bounded(COORD_LIMIT as int),
        ensures
            r as nat == spec_isqrt(spec_dist_sq(self, other) as nat),
    {
        let dx: i64 = self.x - other.x;
        let dy: i64 = self.y - other.y;
        let d = Vec2 { x: dx, y: dy };
        proof {
            assert(d.bounded(2 * COORD_LIMIT as int));
            lemma_sq_bound(dx as int, 2 * COORD_LIMIT as int);
            lemma_sq_bound(dy as int, 2 * COORD_LIMIT as int);
        }
        let s: i64 = dx * dx + dy * dy;
        let root: u128 = isqrt_u128(s as u128);
        proof {
            lemma_isqrt_le(s as nat, 16_000_000_000_000_000_000nat);
            assert(spec_isqrt(16_000_000_000_000_000_000nat) <= 4_000_000_000nat) by {
                lemma_isqrt_bounds(16_000_000_000_000_000_000nat);
                if spec_isqrt(16_000_000_000_000_000_000nat) > 4_000_000_000nat {
                    assert(spec_isqrt(16_000_000_000_000_000_000nat) * spec_isqrt(16_000_000_000_000_000_000nat)
                        > 16_000_000_000_000_000_000nat) by (nonlinear_arith)
                        requires
                            spec_isqrt(16_000_000_000_000_000_000nat) > 4_000_000_000nat,
                    {
                    }
                }
            }
        }
        root as i64
    }
}

/// A usable direction: non-zero, with both components at most one unit.
pub open spec fn is_dir(d: Vec2) -> bool {
    &&& !(d.x == 0 && d.y == 0)
    &&& d.bounded(MILLI as int)
}

/// A near-unit direction: usable, with a squared length within half a
/// percent below one squared unit and never above it — what normalization
/// guarantees, and what axis reflection preserves.
pub open spec fn is_unit_dir(d: Vec2) -> bool {
    &&& is_dir(d)
    &&& 995_000 <= d.spec_len_sq() <= 1_000_000
}

/// Sign factor of an integer; `1` for zero.
pub open spec fn spec_sign(a: int) -> int {
    if a < 0 {
        -1
    } else {
        1
    }
}

/// Pre-scaling factor used by normalization so the intermediate vector is
/// long enough for the integer square root to lose almost nothing.
pub open spec fn spec_norm_scale(m: int) -> int {
    0x100_0000_0000int / m + 1
}

/// Normalization restricted to the closed positive quadrant, on magnitudes.
pub open spec fn spec_normalize_pos(ax: int, ay: int) -> (int, int) {
    let m = if ax >= ay { ax } else { ay };
    let s = spec_norm_scale(m);
    let bx = ax * s;
    let by = ay * s;
    let l = spec_isqrt((bx * bx + by * by) as nat) as int;
    ((bx * 1000) / l, (by * 1000) / l)
}

/// Direction of `(x, y)` as a near-unit vector at scale `MILLI`;
/// the zero vector maps to itself.
pub open spec fn spec_normalize(x: int, y: int) -> (int, int) {
    if x == 0 && y == 0 {
        (0, 0)
    } else {
        let p = spec_normalize_pos(abs_i(x), abs_i(y));
        (spec_sign(x) * p.0, spec_sign(y) * p.1)
    }
}

/// Squared Euclidean distance between two points, in squared milli-units.
pub open spec fn spec_dist_sq(a: Vec2, b: Vec2) -> int {
    (a.x - b.x) * (a.x - b.x) + (a.y - b.y) * (a.y - b.y)
}

/// `|a| <= m` bounds the square `a * a` by `m * m`.
pub proof fn lemma_sq_bound(a: int, m: int)
    requires
        abs_i(a) <= m,
    ensures
        0 <= a * a <= m * m,
{
    assert(0 <= a * a <= m * m) by (nonlinear_arith)
        requires
            abs_i(a) <= m,
    {
    }
}

/// Near-unit length of the scaled-down components: with a root far above
/// the target scale, the squared length of the result sits within half a
/// percent below one squared unit and never above it.
proof fn lemma_normalize_unit(big_x: int, big_y: int, l: int, cx: int, cy: int)
    requires
        big_x >= 0,
        big_y >= 0,
        l > 2_000_000,
        l * l <= big_x * big_x + big_y * big_y,
        big_x * big_x + big_y * big_y <= l * l + 2 * l,
        0 <= l * cx <= big_x * 1000,
        0 <= l * cy <= big_y * 1000,
        l * (cx + 1) > big_x * 1000,
        l * (cy + 1) > big_y * 1000,
        0 <= cx,
        0 <= cy,
    ensures
        995_000 <= cx * cx + cy * cy <= 1_000_000,
{
    let n = big_x * big_x + big_y * big_y;
    assert((l * l) * (cx * cx) <= (big_x * big_x) * 1_000_000) by (nonlinear_arith)
        requires
            0 <= l * cx <= big_x * 1000,
    {
    }
    assert((l * l) * (cy * cy) <= (big_y * big_y) * 1_000_000) by (nonlinear_arith)
        requires
            0 <= l * cy <= big_y * 1000,
    {
    }
    assert(cx * cx + cy * cy <= 1_000_000) by (nonlinear_arith)
        requires
            (l * l) * (cx * cx) <= (big_x * big_x) * 1_000_000,
            (l * l) * (cy * cy) <= (big_y * big_y) * 1_000_000,
            n == big_x * big_x + big_y * big_y,
            n <= l * l + 2 * l,
            l > 2_000_000,
            0 <= cx,
            0 <= cy,
    {
    }
    assert((l * l) * ((cx + 1) * (cx + 1)) > (big_x * big_x) * 1_000_000) by (nonlinear_arith)
        requires
            l * (cx + 1) > big_x * 1000,
            big_x >= 0,
            l > 0,
    {
    }
    assert((l * l) * ((cy + 1) * (cy + 1)) > (big_y * big_y) * 1_000_000) by (nonlinear_arith)
        requires
            l * (cy + 1) > big_y * 1000,
            big_y >= 0,
            l > 0,
    {
    }
    assert(cx <= 1000 && cy <= 1000) by (nonlinear_arith)
        requires
            cx * cx + cy * cy <= 1_000_000,
            0 <= cx,
            0 <= cy,
    {
    }
    assert(cx * cx + cy * cy >= 995_000) by (nonlinear_arith)
        requires
            (l * l) * ((cx + 1) * (cx + 1)) > (big_x * big_x) * 1_000_000,
            (l * l) * ((cy + 1) * (cy + 1)) > (big_y * big_y) * 1_000_000,
            n == big_x * big_x + big_y * big_y,
            n >= l * l,
            l > 0,
            0 <= cx <= 1000,
            0 <= cy <= 1000,
            cx * cx + cy * cy <= 1_000_000,
    {
    }
}

/// Normalization on magnitudes in the closed positive quadrant: scales the
/// vector up, takes the integer square root of its squared length, and
/// divides each component back down to scale `MILLI`.
fn normalize_pos(ax: u64, ay: u64) -> (r: (u64, u64))
    requires
        ax <= 1_000_000_000,
        ay <= 1_000_000_000,
        ax > 0 || ay > 0,
    ensures
        (r.0 as int, r.1 as int) == spec_normalize_pos(ax as int, ay as int),
        r.0 <= 1000,
        r.1 <= 1000,
        ax >= ay ==> r.0 >= 500,
        ay >= ax ==> r.1 >= 500,
        ay == 0 ==> r.0 == 1000 && r.1 == 0,
        ax == 0 ==> r.1 == 1000 && r.0 == 0,
        995_000 <= r.0 * r.0 + r.1 * r.1 <= 1_000_000,
{
    let m: u64 = if ax >= ay { ax } else { ay };
    let s: u64 = 0x100_0000_0000u64 / m + 1;
    proof {
        assert((ax as u128) * (s as u128) <= 0xFFFF_FFFF_FFFF_FFFFu128 * 0xFFFF_FFFF_FFFF_FFFFu128
            && (ay as u128) * (s as u128) <= 0xFFFF_FFFF_FFFF_FFFFu128 * 0xFFFF_FFFF_FFFF_FFFFu128)
            by (nonlinear_arith)
            requires
                ax <= 0xFFFF_FFFF_FFFF_FFFFu64,
                ay <= 0xFFFF_FFFF_FFFF_FFFFu64,
                s <= 0xFFFF_FFFF_FFFF_FFFFu64,
        {
        }
    }
    let bx: u128 = (ax as u128) * (s as u128);
    let by: u128 = (ay as u128) * (s as u128);
    proof {
        let t: int = 0x100_0000_0000;
        let mi: int = m as int;
        let q: int = t / mi;
        vstd::arithmetic::div_mod::lemma_fundamental_div_mod(t, mi);
        vstd::arithmetic::div_mod::lemma_mod_division_less_than_divisor(t, mi);
        assert(t < mi * (q + 1) <= t + mi) by (nonlinear_arith)
            requires
                t == mi * q + t % mi,
                0 <= t % mi < mi,
        {
        }
        assert(ax * (s as int) <= mi * (s as int) && ay * (s as int) <= mi * (s as int))
            by (nonlinear_arith)
            requires
                ax <= mi,
                ay <= mi,
                s as int >= 0,
        {
        }
        assert(mi * (s as int) <= t + 1_000_000_000);
    }
    proof {
        assert(bx * bx <= 0x200_0000_0000u128 * 0x200_0000_0000u128) by (nonlinear_arith)
            requires
                0 <= bx <= 0x200_0000_0000u128,
        {
        }
        assert(by * by <= 0x200_0000_0000u128 * 0x200_0000_0000u128) by (nonlinear_arith)
            requires
                0 <= by <= 0x200_0000_0000u128,
        {
        }
    }
    let n: u128 = bx * bx + by * by;
    let l: u128 = isqrt_u128(n);
    proof {
        let bigm: int = if bx >= by { bx as int } else { by as int };
        let t: int = 0x100_0000_0000;
        assert(bigm > t);
        assert((n as int) >= bigm * bigm) by (nonlinear_arith)
            requires
                n as int == bx * bx + by * by,
                bigm == if bx >= by { bx as int } else { by as int },
                bx >= 0,
                by >= 0,
        {
        }
        assert((n as int) <= 2 * (bigm * bigm)) by (nonlinear_arith)
            requires
                n as int == bx * bx + by * by,
                bigm == if bx >= by { bx as int } else { by as int },
                bx >= 0,
                by >= 0,
        {
        }
        // l is at least the pre-scale target, so division error is tiny.
        assert((l as int) >= t) by (nonlinear_arith)
            requires
                (n as nat) < ((l as nat) + 1) * ((l as nat) + 1),
                (n as int) >= bigm * bigm,
                bigm > t,
                t > 0,
                l >= 0,
        {
        }
        // each component is at most the root, and the root is below 2 * bigm
        assert(bx <= l && by <= l) by (nonlinear_arith)
            requires
                (n as nat) < ((l as nat) + 1) * ((l as nat) + 1),
                n as int == bx * bx + by * by,
                bx >= 0,
                by >= 0,
                l >= 0,
        {
        }
        assert((l as int) < 2 * bigm) by (nonlinear_arith)
            requires
                (l * l) as nat <= n as nat,
                (n as int) <= 2 * (bigm * bigm),
                bigm > 0,
                l >= 0,
        {
        }
    }
    let cx: u128 = bx * 1000 / l;
    let cy: u128 = by * 1000 / l;
    proof {
        lemma_scaled_div_bounds(bx as int, by as int, l as int);
        let li: int = l as int;
        let bxi: int = bx as int;
        let byi: int = by as int;
        let cxi: int = cx as int;
        let cyi: int = cy as int;
        vstd::arithmetic::div_mod::lemma_fundamental_div_mod(bxi * 1000, li);
        vstd::arithmetic::div_mod::lemma_mod_division_less_than_divisor(bxi * 1000, li);
        vstd::arithmetic::div_mod::lemma_fundamental_div_mod(byi * 1000, li);
        vstd::arithmetic::div_mod::lemma_mod_division_less_than_divisor(byi * 1000, li);
        assert(li * cxi <= bxi * 1000 && li * (cxi + 1) > bxi * 1000) by (nonlinear_arith)
            requires
                bxi * 1000 == li * cxi + (bxi * 1000) % li,
                0 <= (bxi * 1000) % li < li,
        {
        }
        assert(li * cyi <= byi * 1000 && li * (cyi + 1) > byi * 1000) by (nonlinear_arith)
            requires
                byi * 1000 == li * cyi + (byi * 1000) % li,
                0 <= (byi * 1000) % li < li,
        {
        }
        assert(li * li <= n as int && n as int <= li * li + 2 * li) by (nonlinear_arith)
            requires
                (l * l) as nat <= n as nat,
                (n as nat) < ((l as nat) + 1) * ((l as nat) + 1),
                li == l as int,
        {
        }
        lemma_normalize_unit(bxi, byi, li, cxi, cyi);
        if ax >= ay {
            lemma_big_component(bx as int, l as int);
        }
        if ay >= ax {
            lemma_big_component(by as int, l as int);
        }
        if ay == 0 {
            assert(by == 0) by (nonlinear_arith)
                requires
                    by == ay * (s as int),
                    ay == 0,
            {
            }
            assert(n == bx * bx) by (nonlinear_arith)
                requires
                    n == bx * bx + by * by,
                    by == 0,
            {
            }
            assert((l as int) <= (bx as int)) by (nonlinear_arith)
                requires
                    (l * l) as nat <= n as nat,
                    n == bx * bx,
                    l >= 0,
                    bx >= 0,
            {
            }
            assert(l == bx);
            vstd::arithmetic::div_mod::lemma_div_multiples_vanish(1000, l as int);
            assert((l as int) * 1000 == bx as int * 1000);
            assert((cy as int) == 0) by {
                vstd::arithmetic::div_mod::lemma_div_of0(l as int);
            }
        }
        if ax == 0 {
            assert(bx == 0) by (nonlinear_arith)
                requires
                    bx == ax * (s as int),
                    ax == 0,
            {
            }
            assert(n == by * by) by (nonlinear_arith)
                requires
                    n == bx * bx + by * by,
                    bx == 0,
            {
            }
            assert((l as int) <= (by as int)) by (nonlinear_arith)
                requires
                    (l * l) as nat <= n as nat,
                    n == by * by,
                    l >= 0,
                    by >= 0,
            {
            }
            assert(l == by);
            vstd::arithmetic::div_mod::lemma_div_multiples_vanish(1000, l as int);
            assert((l as int) * 1000 == by as int * 1000);
            assert((cx as int) == 0) by {
                vstd::arithmetic::div_mod::lemma_div_of0(l as int);
            }
        }
    }
    (cx as u64, cy as u64)
}

/// Both scaled quotients stay at or below `MILLI`.
proof fn lemma_scaled_div_bounds(bx: int, by: int, l: int)
    requires
        0 <= bx <= l,
        0 <= by <= l,
        0 < l,
    ensures
        (bx * 1000) / l <= 1000,
        (by * 1000) / l <= 1000,
        (bx * 1000) / l >= 0,
        (by * 1000) / l >= 0,
{
    assert(bx * 1000 <= l * 1000 && by * 1000 <= l * 1000 && bx * 1000 >= 0 && by * 1000 >= 0)
        by (nonlinear_arith)
        requires
            0 <= bx <= l,
            0 <= by <= l,
    {
    }
    vstd::arithmetic::div_mod::lemma_div_is_ordered(bx * 1000, l * 1000, l);
    vstd::arithmetic::div_mod::lemma_div_is_ordered(by * 1000, l * 1000, l);
    vstd::arithmetic::div_mod::lemma_div_multiples_vanish(1000, l);
    vstd::arithmetic::div_mod::lemma_div_pos_is_pos(bx * 1000, l);
    vstd::arithmetic::div_mod::lemma_div_pos_is_pos(by * 1000, l);
}

/// The dominant component of a normalized vector keeps at least half of the
/// unit scale.
proof fn lemma_big_component(big: int, l: int)
    requires
        0 < big,
        0 < l < 2 * big,
    ensures
        (big * 1000) / l >= 500,
{
    vstd::arithmetic::div_mod::lemma_div_is_ordered_by_denominator(big * 1000, l, 2 * big);
    vstd::arithmetic::div_mod::lemma_div_multiples_vanish(500, 2 * big);
    assert((2 * big) * 500 == big * 1000) by (nonlinear_arith);
}

impl Vec2 {
    /// Direction of this vector as a near-unit vector at scale `MILLI`;
    /// a no-op on the zero vector.
    pub fn normalize(self) -> (r: Vec2)
        requires
            self.bounded(COORD_LIMIT as int),
        ensures
            (r.x as int, r.y as int) == spec_normalize(self.x as int, self.y as int),
            r.bounded(MILLI as int),
            !(self.x == 0 && self.y == 0) ==> is_unit_dir(r),
            self.x == 0 && self.y == 0 ==> r == self,
    {
        if self.x == 0 && self.y == 0 {
            return self;
        }
        let ax: u64 = if self.x < 0 { (-self.x) as u64 } else { self.x as u64 };
        let ay: u64 = if self.y < 0 { (-self.y) as u64 } else { self.y as u64 };
        let (cx, cy) = normalize_pos(ax, ay);
        let rx: i64 = if self.x < 0 { -(cx as i64) } else { cx as i64 };
        let ry: i64 = if self.y < 0 { -(cy as i64) } else { cy as i64 };
        proof {
            assert(ax as int == abs_i(self.x as int));
            assert(ay as int == abs_i(self.y as int));
            assert(rx as int == spec_sign(self.x as int) * spec_normalize_pos(ax as int, ay as int).0)
                by (nonlinear_arith)
                requires
                    rx as int == if self.x < 0 {
                        -(spec_normalize_pos(ax as int, ay as int).0)
                    } else {
                        spec_normalize_pos(ax as int, ay as int).0
                    },
                    spec_sign(self.x as int) == if self.x < 0 { -1int } else { 1int },
            {
            }
            assert(ry as int == spec_sign(self.y as int) * spec_normalize_pos(ax as int, ay as int).1)
                by (nonlinear_arith)
                requires
                    ry as int == if self.y < 0 {
                        -(spec_normalize_pos(ax as int, ay as int).1)
                    } else {
                        spec_normalize_pos(ax as int, ay as int).1
                    },
                    spec_sign(self.y as int) == if self.y < 0 { -1int } else { 1int },
            {
            }
            assert(rx * rx == (cx as int) * (cx as int) && ry * ry == (cy as int) * (cy as int))
                by (nonlinear_arith)
                requires
                    rx as int == cx as int || rx as int == -(cx as int),
                    ry as int == cy as int || ry as int == -(cy as int),
            {
            }
        }
        Vec2 { x: rx, y: ry }
    }
}

/// Largest accepted speed for displacement scaling, units per second.
pub const DISP_MAX_SPEED: u64 = 100_000;

/// Largest accepted tick for displacement scaling, milliseconds.
pub const DISP_MAX_TICK_MS: u64 = 600_000;

/// Displacement along one axis over a tick, in milli-units: the direction
/// component (scale `MILLI`) times speed (units per second) times elapsed
/// time (milliseconds), divided back by the direction scale. Truncation is
/// symmetric around zero.
pub open spec fn spec_disp(dir_c: int, speed: int, dt_ms: int) -> int {
    if dir_c >= 0 {
        (dir_c * speed * dt_ms) / 1000
    } else {
        -(((-dir_c) * speed * dt_ms) / 1000)
    }
}

/// Executable displacement along one axis over a tick.
pub fn axis_disp(dir_c: i64, speed: u64, dt_ms: u64) -> (r: i64)
    requires
        abs_i(dir_c as int) <= MILLI as int,
        speed <= DISP_MAX_SPEED,
        dt_ms <= DISP_MAX_TICK_MS,
    ensures
        r == spec_disp(dir_c as int, speed as int, dt_ms as int),
        abs_i(r as int) <= 60_000_000_000,
{
    let mag: u64 = if dir_c < 0 {
        (-dir_c) as u64
    } else {
        dir_c as u64
    };
    proof {
        assert(mag * speed <= 1000 * 100_000) by (nonlinear_arith)
            requires
                mag <= 1000,
                speed <= 100_000,
        {
        }
        assert((mag * speed) * dt_ms <= 100_000_000 * 600_000) by (nonlinear_arith)
            requires
                mag * speed <= 100_000_000,
                dt_ms <= 600_000,
        {
        }
    }
    let scaled: u64 = mag * speed * dt_ms / 1000;
    proof {
        vstd::arithmetic::div_mod::lemma_div_is_ordered(
            (mag * speed * dt_ms) as int,
            60_000_000_000_000,
            1000,
        );
        vstd::arithmetic::div_mod::lemma_div_multiples_vanish(60_000_000_000, 1000);
        vstd::arithmetic::div_mod::lemma_div_pos_is_pos((mag * speed * dt_ms) as int, 1000);
    }
    if dir_c < 0 {
        -(scaled as i64)
    } else {
        scaled as i64
    }
}

/// The integer square root is monotone.
pub proof fn lemma_isqrt_le(a: nat, b: nat)
    requires
        a <= b,
    ensures
        spec_isqrt(a) <= spec_isqrt(b),
{
    lemma_isqrt_bounds(a);
    lemma_isqrt_bounds(b);
    let ra = spec_isqrt(a);
    let rb = spec_isqrt(b);
    if ra > rb {
        assert(false) by (nonlinear_arith)
            requires
                ra * ra <= a,
                b < (rb + 1) * (rb + 1),
                a <= b,
                ra > rb,
        {
        }
    }
}

} // verus!
