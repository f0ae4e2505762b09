//! Three-component fixed-point vectors, used as points, directions and
//! RGB colors alike.

use vstd::prelude::*;

verus! {

use crate::fixed::{
    div_tz, fdiv, fmul, fsqrt, fx_div, fx_mul, fx_sqrt, is_sqrt_of, lemma_div_tz_bound,
    lemma_sqrt_floor_is, sqrt_floor, SCALE,
};
use vstd::arithmetic::div_mod::{lemma_div_pos_is_pos, lemma_fundamental_div_mod};

/// Magnitude cap on vector components accepted by the products (`dot`,
/// `cross`, `length_squared`): keeps every intermediate inside `i128` and
/// every result inside `i64`.
pub const VMAX: i64 = 1_500_000_000_000;

#[derive(Clone, Copy, PartialEq, Eq, Structural)]
pub struct Vec3 {
    pub x: i64,
    pub y: i64,
    pub z: i64,
}

/// Every component lies within `b` in magnitude.
pub open spec fn bounded(v: Vec3, b: int) -> bool {
    &&& -b <= v.x <= b
    &&& -b <= v.y <= b
    &&& -b <= v.z <= b
}

/// Raw (unscaled) sum of the componentwise products.
pub open spec fn dot_raw(a: Vec3, b: Vec3) -> int {
    a.x * b.x + a.y * b.y + a.z * b.z
}

/// Fixed-point dot product.
pub open spec fn dot_s(a: Vec3, b: Vec3) -> int {
    div_tz(dot_raw(a, b), SCALE as int)
}

/// Fixed-point squared length.
pub open spec fn lensq_s(v: Vec3) -> int {
    dot_s(v, v)
}

/// Fixed-point length.
pub open spec fn len_s(v: Vec3) -> int {
    fsqrt(lensq_s(v))
}

/// Components of the unit vector pointing along `v`.
pub open spec fn unit_s(v: Vec3) -> (int, int, int) {
    (fdiv(v.x as int, len_s(v)), fdiv(v.y as int, len_s(v)), fdiv(v.z as int, len_s(v)))
}

/// The raw dot product of a vector with itself is non-negative.
pub proof fn lemma_dot_raw_self_nonneg(v: Vec3)
    by (nonlinear_arith)
    ensures
        dot_raw(v, v) >= 0,
        dot_raw(v, v) >= v.x * v.x,
        dot_raw(v, v) >= v.y * v.y,
        dot_raw(v, v) >= v.z * v.z,
{
}

/// The squared length is non-negative.
pub proof fn lemma_lensq_nonneg(v: Vec3)
    ensures
        lensq_s(v) >= 0,
{
    lemma_dot_raw_self_nonneg(v);
    if dot_raw(v, v) > 0 {
        lemma_div_pos_is_pos(dot_raw(v, v), SCALE as int);
    }
}

impl Vec3 {
    pub fn new(x: i64, y: i64, z: i64) -> (r: Vec3)
        ensures
            r == (Vec3 { x, y, z }),
    {
        Vec3 { x, y, z }
    }

    pub fn zero() -> (r: Vec3)
        ensures
            r == (Vec3 { x: 0i64, y: 0i64, z: 0i64 }),
    {
        Vec3 { x: 0, y: 0, z: 0 }
    }

    /// Componentwise sum.
    pub fn add(self, o: Vec3) -> (r: Vec3)
        requires
            i64::MIN <= self.x + o.x <= i64::MAX,
            i64::MIN <= self.y + o.y <= i64::MAX,
            i64::MIN <= self.z + o.z <= i64::MAX,
        ensures
            r.x == self.x + o.x,
            r.y == self.y + o.y,
            r.z == self.z + o.z,
    {
        Vec3 { x: self.x + o.x, y: self.y + o.y, z: self.z + o.z }
    }

    /// Componentwise difference.
    pub fn sub(self, o: Vec3) -> (r: Vec3)
        requires
            i64::MIN <= self.x - o.x <= i64::MAX,
            i64::MIN <= self.y - o.y <= i64::MAX,
            i64::MIN <= self.z - o.z <= i64::MAX,
        ensures
            r.x == self.x - o.x,
            r.y == self.y - o.y,
            r.z == self.z - o.z,
    {
        Vec3 { x: self.x - o.x, y: self.y - o.y, z: self.z - o.z }
    }

    /// Componentwise negation.
    pub fn neg(self) -> (r: Vec3)
        requires
            self.x > i64::MIN,
            self.y > i64::MIN,
            self.z > i64::MIN,
        ensures
            r.x == -self.x,
            r.y == -self.y,
            r.z == -self.z,
    {
        Vec3 { x: -self.x, y: -self.y, z: -self.z }
    }

    /// The vector scaled by the fixed-point factor `k`.
    pub fn scale(self, k: i64) -> (r: Vec3)
        requires
            -(i64::MAX as int) * (SCALE as int) <= (k as int) * (self.x as int) <= (
            i64::MAX as int) * (SCALE as int),
            -(i64::MAX as int) * (SCALE as int) <= (k as int) * (self.y as int) <= (
            i64::MAX as int) * (SCALE as int),
            -(i64::MAX as int) * (SCALE as int) <= (k as int) * (self.z as int) <= (
            i64::MAX as int) * (SCALE as int),
        ensures
            r.x == fmul(k as int, self.x as int),
            r.y == fmul(k as int, self.y as int),
            r.z == fmul(k as int, self.z as int),
    {
        Vec3 { x: fx_mul(k, self.x), y: fx_mul(k, self.y), z: fx_mul(k, self.z) }
    }

    /// Componentwise fixed-point product (used for color attenuation).
    pub fn mul_comp(self, o: Vec3) -> (r: Vec3)
        requires
            -(i64::MAX as int) * (SCALE as int) <= (self.x as int) * (o.x as int) <= (
            i64::MAX as int) * (SCALE as int),
            -(i64::MAX as int) * (SCALE as int) <= (self.y as int) * (o.y as int) <= (
            i64::MAX as int) * (SCALE as int),
            -(i64::MAX as int) * (SCALE as int) <= (self.z as int) * (o.z as int) <= (
            i64::MAX as int) * (SCALE as int),
        ensures
            r.x == fmul(self.x as int, o.x as int),
            r.y == fmul(self.y as int, o.y as int),
            r.z == fmul(self.z as int, o.z as int),
    {
        Vec3 { x: fx_mul(self.x, o.x), y: fx_mul(self.y, o.y), z: fx_mul(self.z, o.z) }
    }

    /// Fixed-point dot product.
    pub fn dot(self, o: Vec3) -> (r: i64)
        requires
            bounded(self, VMAX as int),
            bounded(o, VMAX as int),
        ensures
            r == dot_s(self, o),
    {
        proof {
            lemma_raw_products_bounded(self, o);
        }
        let p: i128 = (self.x as i128) * (o.x as i128) + (self.y as i128) * (o.y as i128) + (
        self.z as i128) * (o.z as i128);
        let q: i128 = crate::fixed::div_q(p, SCALE as i128);
        proof {
            lemma_div_tz_bound(p as int, SCALE as int, 0x6000_0000_0000_0000);
        }
        q as i64
    }

    /// Fixed-point cross product.
    pub fn cross(self, o: Vec3) -> (r: Vec3)
        requires
            bounded(self, VMAX as int),
            bounded(o, VMAX as int),
        ensures
            r.x == fmul(self.y as int, o.z as int) - fmul(self.z as int, o.y as int),
            r.y == fmul(self.z as int, o.x as int) - fmul(self.x as int, o.z as int),
            r.z == fmul(self.x as int, o.y as int) - fmul(self.y as int, o.x as int),
    {
        proof {
            lemma_pair_product_bounded(self.y as int, o.z as int);
            lemma_pair_product_bounded(self.z as int, o.y as int);
            lemma_pair_product_bounded(self.z as int, o.x as int);
            lemma_pair_product_bounded(self.x as int, o.z as int);
            lemma_pair_product_bounded(self.x as int, o.y as int);
            lemma_pair_product_bounded(self.y as int, o.x as int);
        }
        let rx: i64 = fx_mul(self.y, o.z) - fx_mul(self.z, o.y);
        let ry: i64 = fx_mul(self.z, o.x) - fx_mul(self.x, o.z);
        let rz: i64 = fx_mul(self.x, o.y) - fx_mul(self.y, o.x);
        Vec3 { x: rx, y: ry, z: rz }
    }

    /// Fixed-point squared length.
    pub fn length_squared(self) -> (r: i64)
        requires
            bounded(self, VMAX as int),
        ensures
            r == lensq_s(self),
            r >= 0,
    {
        proof {
            lemma_lensq_nonneg(self);
        }
        self.dot(self)
    }

    /// Fixed-point length.
    pub fn length(self) -> (r: i64)
        requires
            bounded(self, VMAX as int),
        ensures
            r == len_s(self),
            r >= 0,
    {
        fx_sqrt(self.length_squared())
    }

    /// The unit vector along `self`; meaningful only for a vector of
    /// positive squared length.
    pub fn unit_vector(self) -> (r: Vec3)
        requires
            bounded(self, VMAX as int),
            lensq_s(self) >= 1,
        ensures
            r.x == unit_s(self).0,
            r.y == unit_s(self).1,
            r.z == unit_s(self).2,
            bounded(r, 3 * (SCALE as int) / 2),
            bounded(r, 3 * SCALE as int),
    {
        let len: i64 = self.length();
        proof {
            lemma_unit_bounds(self);
        }
        Vec3 { x: fx_div(self.x, len), y: fx_div(self.y, len), z: fx_div(self.z, len) }
    }

    /// The vector divided componentwise by a positive whole count (a
    /// pixel count, not a fixed-point number).
    pub fn div_scalar(self, k: i64) -> (r: Vec3)
        requires
            k > 0,
        ensures
            r.x == div_tz(self.x as int, k as int),
            r.y == div_tz(self.y as int, k as int),
            r.z == div_tz(self.z as int, k as int),
    {
        proof {
            lemma_divisor_absorbs(self.x as int, k as int);
            lemma_divisor_absorbs(self.y as int, k as int);
            lemma_divisor_absorbs(self.z as int, k as int);
        }
        let rx: i64 = crate::fixed::div_q(self.x as i128, k as i128) as i64;
        let ry: i64 = crate::fixed::div_q(self.y as i128, k as i128) as i64;
        let rz: i64 = crate::fixed::div_q(self.z as i128, k as i128) as i64;
        Vec3 { x: rx, y: ry, z: rz }
    }

    /// True when the vector is exactly zero (below the fixed-point
    /// resolution in every component).
    pub fn near_zero(self) -> (r: bool)
        ensures
            r <==> (self.x == 0 && self.y == 0 && self.z == 0),
    {
        self.x == 0 && self.y == 0 && self.z == 0
    }
}

/// Componentwise difference, for specifications; exact on bounded vectors.
pub open spec fn vsub_s(a: Vec3, b: Vec3) -> Vec3 {
    Vec3 {
        x: (a.x - b.x) as i64,
        y: (a.y - b.y) as i64,
        z: (a.z - b.z) as i64,
    }
}

/// Components of the fixed-point cross product.
pub open spec fn cross_s(a: Vec3, b: Vec3) -> (int, int, int) {
    (
        fmul(a.y as int, b.z as int) - fmul(a.z as int, b.y as int),
        fmul(a.z as int, b.x as int) - fmul(a.x as int, b.z as int),
        fmul(a.x as int, b.y as int) - fmul(a.y as int, b.x as int),
    )
}

/// Componentwise negation, for specifications; exact on bounded vectors.
pub open spec fn neg_s(v: Vec3) -> Vec3 {
    Vec3 { x: (-(v.x as int)) as i64, y: (-(v.y as int)) as i64, z: (-(v.z as int)) as i64 }
}

/// An integer triple packed into a vector; exact when each component is in
/// range.
pub open spec fn v3(t: (int, int, int)) -> Vec3 {
    Vec3 { x: t.0 as i64, y: t.1 as i64, z: t.2 as i64 }
}

/// Negation keeps the squared length.
pub proof fn lemma_lensq_neg(v: Vec3)
    requires
        v.x > i64::MIN,
        v.y > i64::MIN,
        v.z > i64::MIN,
    ensures
        lensq_s(neg_s(v)) == lensq_s(v),
{
    assert(dot_raw(neg_s(v), neg_s(v)) == dot_raw(v, v)) by (nonlinear_arith)
        requires
            neg_s(v).x == -v.x,
            neg_s(v).y == -v.y,
            neg_s(v).z == -v.z,
    ;
}

/// Negating one argument negates the dot product exactly.
pub proof fn lemma_dot_neg(a: Vec3, b: Vec3)
    requires
        a.x > i64::MIN,
        a.y > i64::MIN,
        a.z > i64::MIN,
    ensures
        dot_s(neg_s(a), b) == -dot_s(a, b),
{
    assert(dot_raw(neg_s(a), b) == -dot_raw(a, b)) by (nonlinear_arith)
        requires
            neg_s(a).x == -a.x,
            neg_s(a).y == -a.y,
            neg_s(a).z == -a.z,
    ;
    crate::fixed::lemma_div_tz_neg(dot_raw(a, b), SCALE as int);
}

/// Dot-product bounds from componentwise bounds on the arguments and a
/// chosen result bound `bo`.
pub proof fn lemma_dot_in_range(a: Vec3, b: Vec3, ba: int, bb: int, bo: int)
    requires
        0 <= ba <= VMAX as int,
        0 <= bb <= VMAX as int,
        0 <= bo,
        bounded(a, ba),
        bounded(b, bb),
        3 * ba * bb <= bo * SCALE,
    ensures
        bounded(a, VMAX as int),
        bounded(b, VMAX as int),
        -bo <= dot_s(a, b) <= bo,
{
    assert(-(bo * SCALE) <= dot_raw(a, b) <= bo * SCALE) by (nonlinear_arith)
        requires
            bounded(a, ba),
            bounded(b, bb),
            0 <= ba,
            0 <= bb,
            3 * ba * bb <= bo * SCALE,
    ;
    crate::fixed::lemma_div_tz_bound(dot_raw(a, b), SCALE as int, bo);
}

/// A vector in the plane whose fixed-point squared length is below one
/// has raw squared length below the square of the scale.
pub proof fn lemma_disk_raw(d: Vec3)
    requires
        d.z == 0,
        lensq_s(d) < SCALE,
    ensures
        (d.x as int) * (d.x as int) + (d.y as int) * (d.y as int) < (SCALE as int) * (
        SCALE as int),
{
    lemma_dot_raw_self_nonneg(d);
    assert(dot_raw(d, d) == d.x * d.x + d.y * d.y) by (nonlinear_arith)
        requires
            d.z == 0,
    ;
    if dot_raw(d, d) >= (SCALE as int) * (SCALE as int) {
        vstd::arithmetic::div_mod::lemma_div_is_ordered(
            (SCALE as int) * (SCALE as int),
            dot_raw(d, d),
            SCALE as int,
        );
        crate::fixed::lemma_div_tz_exact(SCALE as int, SCALE as int);
        assert(lensq_s(d) >= SCALE);
    }
}

/// The normalization of a whole-unit axis vector is itself.
pub proof fn lemma_unit_axis_z()
    ensures
        v3(unit_s(Vec3 { x: 0i64, y: 0i64, z: SCALE })) == (Vec3 { x: 0i64, y: 0i64, z: SCALE }),
        lensq_s(Vec3 { x: 0i64, y: 0i64, z: SCALE }) == SCALE,
{
    let a = Vec3 { x: 0i64, y: 0i64, z: SCALE };
    assert(dot_raw(a, a) == (SCALE as int) * (SCALE as int)) by (nonlinear_arith)
        requires
            a.x == 0,
            a.y == 0,
            a.z == SCALE,
            SCALE == 1_000_000,
    ;
    crate::fixed::lemma_div_tz_exact(SCALE as int, SCALE as int);
    assert(lensq_s(a) == SCALE);
    crate::fixed::lemma_sqrt_of_square(SCALE as int);
    assert(len_s(a) == SCALE);
    assert(fdiv(0, SCALE as int) == 0) by {
        vstd::arithmetic::div_mod::lemma_div_of0(SCALE as int);
    }
    assert(fdiv(SCALE as int, SCALE as int) == SCALE) by {
        crate::fixed::lemma_div_tz_exact(SCALE as int, SCALE as int);
    }
}

/// Dividing by a positive count keeps a value within the `i64` range.
proof fn lemma_divisor_absorbs(x: int, k: int)
    requires
        k > 0,
        i64::MIN <= x <= i64::MAX,
    ensures
        i64::MIN as int <= div_tz(x, k) <= i64::MAX as int,
{
    if x >= 0 {
        assert(-((i64::MAX as int) * k) <= x <= (i64::MAX as int) * k) by (nonlinear_arith)
            requires
                k > 0,
                0 <= x <= i64::MAX,
        ;
        lemma_div_tz_bound(x, k, i64::MAX as int);
    } else {
        assert(-(9223372036854775808 * k) <= x <= 9223372036854775808 * k) by (nonlinear_arith)
            requires
                k > 0,
                i64::MIN <= x < 0,
        ;
        lemma_div_tz_bound(x, k, 9223372036854775808);
        assert(div_tz(x, k) <= 0) by {
            vstd::arithmetic::div_mod::lemma_div_pos_is_pos(-x, k);
        }
    }
}

/// The raw products of two `VMAX`-bounded vectors and their sum stay well
/// inside `i128`, and the scaled dot product fits `i64`.
pub(crate) proof fn lemma_raw_products_bounded(a: Vec3, b: Vec3)
    by (nonlinear_arith)
    requires
        bounded(a, VMAX as int),
        bounded(b, VMAX as int),
    ensures
        -(0x6000_0000_0000_0000 * (SCALE as int)) <= dot_raw(a, b) <= 0x6000_0000_0000_0000 * (
        SCALE as int),
        i128::MIN < a.x * b.x + a.y * b.y + a.z * b.z < i128::MAX,
        i128::MIN / 2 < a.x * b.x < i128::MAX / 2,
        i128::MIN / 2 < a.x * b.x + a.y * b.y < i128::MAX / 2,
{
}

/// The product of two `VMAX`-bounded scalars is a legal `fx_mul` operand
/// pair, and the scaled product is bounded by `VMAX`.
proof fn lemma_pair_product_bounded(a: int, b: int)
    requires
        -(VMAX as int) <= a <= VMAX as int,
        -(VMAX as int) <= b <= VMAX as int,
    ensures
        -(i64::MAX as int) * (SCALE as int) <= a * b <= (i64::MAX as int) * (SCALE as int),
        -0x3000_0000_0000_0000 <= fmul(a, b) <= 0x3000_0000_0000_0000,
{
    assert(-(0x3000_0000_0000_0000 * (SCALE as int)) <= a * b <= 0x3000_0000_0000_0000 * (
    SCALE as int)) by (nonlinear_arith)
        requires
            -(VMAX as int) <= a <= VMAX as int,
            -(VMAX as int) <= b <= VMAX as int,
    ;
    lemma_div_tz_bound(a * b, SCALE as int, 0x3000_0000_0000_0000);
    assert(0x3000_0000_0000_0000 * (SCALE as int) <= (i64::MAX as int) * (SCALE as int))
        by (nonlinear_arith);
}

/// Each component of a vector is at most three times its fixed-point
/// length, so the unit vector's components stay within `3 * SCALE`.
proof fn lemma_unit_bounds(v: Vec3)
    requires
        bounded(v, VMAX as int),
        lensq_s(v) >= 1,
    ensures
        len_s(v) >= 1000,
        -(3 * (len_s(v))) <= 2 * v.x <= 3 * len_s(v),
        -(3 * (len_s(v))) <= 2 * v.y <= 3 * len_s(v),
        -(3 * (len_s(v))) <= 2 * v.z <= 3 * len_s(v),
        -(i64::MAX as int) * len_s(v) <= (v.x as int) * (SCALE as int) <= (i64::MAX as int) * len_s(
            v,
        ),
        -(i64::MAX as int) * len_s(v) <= (v.y as int) * (SCALE as int) <= (i64::MAX as int) * len_s(
            v,
        ),
        -(i64::MAX as int) * len_s(v) <= (v.z as int) * (SCALE as int) <= (i64::MAX as int) * len_s(
            v,
        ),
        -(3 * (SCALE as int) / 2) <= fdiv(v.x as int, len_s(v)) <= 3 * (SCALE as int) / 2,
        -(3 * (SCALE as int) / 2) <= fdiv(v.y as int, len_s(v)) <= 3 * (SCALE as int) / 2,
        -(3 * (SCALE as int) / 2) <= fdiv(v.z as int, len_s(v)) <= 3 * (SCALE as int) / 2,
{
    let q = dot_raw(v, v);
    let l = lensq_s(v);
    let len = len_s(v);
    lemma_dot_raw_self_nonneg(v);
    assert(l == q / (SCALE as int));
    lemma_fundamental_div_mod(q, SCALE as int);
    assert(l * (SCALE as int) > q - (SCALE as int)) by (nonlinear_arith)
        requires
            q == (SCALE as int) * l + q % (SCALE as int),
            0 <= q % (SCALE as int) < (SCALE as int),
    ;
    lemma_sqrt_exists_for(l * (SCALE as int));
    assert(is_sqrt_of(l * (SCALE as int), len));
    assert(len >= 1000) by (nonlinear_arith)
        requires
            is_sqrt_of(l * (SCALE as int), len),
            l >= 1,
    ;
    lemma_comp_le_3len(v.x as int, q, l, len);
    lemma_comp_le_3len(v.y as int, q, l, len);
    lemma_comp_le_3len(v.z as int, q, l, len);
    lemma_fdiv_unit_bound(v.x as int, len);
    lemma_fdiv_unit_bound(v.y as int, len);
    lemma_fdiv_unit_bound(v.z as int, len);
}

/// The integer square root of a non-negative number exists; here shown by
/// handing `choose` the witness it needs through `sqrt_floor` of the
/// executable search's range.
pub(crate) proof fn lemma_sqrt_exists_for(n: int)
    requires
        n >= 0,
    ensures
        is_sqrt_of(n, sqrt_floor(n)),
    decreases n,
{
    if n == 0 {
        assert(is_sqrt_of(0, 0)) by (nonlinear_arith);
        lemma_sqrt_floor_is(0, 0);
    } else {
        lemma_sqrt_exists_for(n - 1);
        let r = sqrt_floor(n - 1);
        if (r + 1) * (r + 1) <= n {
            assert(is_sqrt_of(n, r + 1)) by (nonlinear_arith)
                requires
                    is_sqrt_of(n - 1, r),
                    (r + 1) * (r + 1) <= n,
            ;
            lemma_sqrt_floor_is(n, r + 1);
        } else {
            assert(is_sqrt_of(n, r)) by (nonlinear_arith)
                requires
                    is_sqrt_of(n - 1, r),
                    (r + 1) * (r + 1) > n,
            ;
            lemma_sqrt_floor_is(n, r);
        }
    }
}

/// Twice a component is at most three times the fixed-point length.
proof fn lemma_comp_le_3len(x: int, q: int, l: int, len: int)
    by (nonlinear_arith)
    requires
        x * x <= q,
        l * (SCALE as int) > q - (SCALE as int),
        is_sqrt_of(l * (SCALE as int), len),
        len >= 1000,
        SCALE == 1_000_000,
    ensures
        -(3 * len) <= 2 * x <= 3 * len,
{
}

/// Bound on the unit component given the component bound.
proof fn lemma_fdiv_unit_bound(x: int, len: int)
    requires
        len >= 1000,
        -(3 * len) <= 2 * x <= 3 * len,
    ensures
        -(i64::MAX as int) * len <= x * (SCALE as int) <= (i64::MAX as int) * len,
        -(3 * (SCALE as int) / 2) <= fdiv(x, len) <= 3 * (SCALE as int) / 2,
{
    assert(-(1_500_000 * len) <= x * (SCALE as int) <= 1_500_000 * len) by (nonlinear_arith)
        requires
            -(3 * len) <= 2 * x <= 3 * len,
            len >= 1000,
            SCALE == 1_000_000,
    ;
    lemma_div_tz_bound(x * (SCALE as int), len, 1_500_000);
    assert(1_500_000 * len <= (i64::MAX as int) * len) by (nonlinear_arith)
        requires
            len >= 1000,
    ;
}

} // verus!
