//! Single-precision arithmetic on whole numbers, done in integers: a value is
//! kept to 24 significant bits, to the nearest, ties to even.

use vstd::prelude::*;

verus! {

/// The whole number nearest to `n / d`, the even one of two.
pub open spec fn nearest(n: nat, d: nat) -> nat
    recommends
        d > 0,
{
    let q = n / d;
    let r = n % d;
    if 2 * r > d || (2 * r == d && q % 2 == 1) {
        q + 1
    } else {
        q
    }
}

/// The least power of two from `u` on that spaces numbers of the size of
/// `n / d` in 24 bits.
pub open spec fn spacing(n: nat, d: nat, u: nat) -> nat
    decreases n + 1 - u,
    via spacing_decreases
{
    if u == 0 || d == 0 || n < 0x100_0000 * d * u {
        u
    } else {
        spacing(n, d, 2 * u)
    }
}

#[via_fn]
proof fn spacing_decreases(n: nat, d: nat, u: nat) {
    if d > 0 && u > 0 {
        assert(0x100_0000 * d * u >= 2 * u) by (nonlinear_arith)
            requires
                d > 0,
                u > 0,
        ;
    }
}

/// The greatest power of two from `t` on by which `n / d` can be multiplied and
/// stay below 24 bits.
pub open spec fn scaling(n: nat, d: nat, t: nat) -> nat
    decreases 0x100_0000 * d - n * t,
    via scaling_decreases
{
    if n == 0 || t == 0 || n * (2 * t) >= 0x100_0000 * d {
        t
    } else {
        scaling(n, d, 2 * t)
    }
}

#[via_fn]
proof fn scaling_decreases(n: nat, d: nat, t: nat) {
    if n > 0 && t > 0 {
        assert(n * t > 0 && n * (2 * t) == 2 * (n * t)) by (nonlinear_arith)
            requires
                n > 0,
                t > 0,
        ;
    }
}

/// `n / d` in single precision, then rounded to a whole number, a half away
/// from zero.
pub open spec fn rounded_quotient(n: nat, d: nat) -> nat {
    if n >= 0x100_0000 * d {
        let u = spacing(n, d, 1);
        nearest(n, d * u) * u
    } else {
        let t = scaling(n, d, 1);
        (2 * nearest(n * t, d) + t) / (2 * t)
    }
}

/// A whole number in single precision.
pub open spec fn single(n: nat) -> nat {
    let u = spacing(n, 1, 1);
    nearest(n, u) * u
}

/// `h * size / dim` in single precision, each step rounded, then rounded to a
/// whole number of 32 bits; a division of zero by zero counts as zero.
pub open spec fn scaled(h: nat, size: nat, dim: nat) -> nat {
    let p = single(single(h) * single(size));
    let c = single(dim);
    if c == 0 {
        if p == 0 {
            0
        } else {
            u32::MAX as nat
        }
    } else {
        let r = rounded_quotient(p, c);
        if r > u32::MAX {
            u32::MAX as nat
        } else {
            r
        }
    }
}

fn nearest_u128(n: u128, d: u128) -> (r: u128)
    requires
        0 < d < 0x8000_0000_0000_0000_0000_0000_0000_0000,
        n < 0x8000_0000_0000_0000_0000_0000_0000_0000,
    ensures
        r as nat == nearest(n as nat, d as nat),
        r * d <= n + d,
        r <= n + 1,
        n >= d ==> r > 0,
{
    let q: u128 = n / d;
    let r: u128 = n % d;
    assert(q * d + r == n && r < d) by (nonlinear_arith)
        requires
            q == n / d,
            r == n % d,
            d > 0,
    ;
    assert(q <= n) by (nonlinear_arith)
        requires
            q * d + r == n,
            d > 0,
            r >= 0,
            q >= 0,
    ;
    assert((q + 1) * d == q * d + d) by (nonlinear_arith);
    if n >= d {
        assert(q >= 1) by (nonlinear_arith)
            requires
                q * d + r == n,
                r < d,
                n >= d,
                q >= 0,
        ;
    }
    if 2 * r > d || (2 * r == d && q % 2 == 1) {
        q + 1
    } else {
        q
    }
}

/// The spacing of numbers of the size of `n / d` in 24 bits.
fn spacing_u128(n: u128, d: u128) -> (u: u128)
    requires
        0 < d <= 0x2_0000_0000_0000_0000,
        n <= 0x10_0000_0000_0000_0000,
    ensures
        u as nat == spacing(n as nat, d as nat, 1),
        u > 0,
        u == 1 || d * u <= n,
{
    let mut u: u128 = 1;
    while n >= 0x100_0000 * (d * u)
        invariant
            0 < u,
            0 < d <= 0x2_0000_0000_0000_0000,
            n <= 0x10_0000_0000_0000_0000,
            u == 1 || d * u <= n,
            u == 1 || u <= n,
            spacing(n as nat, d as nat, 1) == spacing(n as nat, d as nat, u as nat),
            0x100_0000 * (d * u) <= u128::MAX,
            d * u <= u128::MAX,
        decreases n - u,
    {
        assert(0x100_0000 * (d as nat) * (u as nat) == 0x100_0000 * (d * u)) by (nonlinear_arith);
        assert(d * (2 * u) == 2 * (d * u)) by (nonlinear_arith);
        assert(2 * u <= d * (2 * u)) by (nonlinear_arith)
            requires
                d >= 1,
                u >= 0,
        ;
        u = 2 * u;
    }
    assert(0x100_0000 * (d as nat) * (u as nat) == 0x100_0000 * (d * u)) by (nonlinear_arith);
    u
}

/// A whole number of up to 66 bits in single precision.
fn single_u128(n: u128) -> (r: u128)
    requires
        n <= 0x4_0000_0000_0000_0000,
    ensures
        r as nat == single(n as nat),
        r <= 2 * n + 1,
        n > 0 ==> r > 0,
        n == 0 ==> r == 0,
{
    let u: u128 = spacing_u128(n, 1);
    let m: u128 = nearest_u128(n, u);
    assert(n > 0 ==> m * u > 0) by {
        if n > 0 {
            assert(m > 0);
            assert(m * u > 0) by (nonlinear_arith)
                requires
                    m > 0,
                    u > 0,
            ;
        }
    }
    if n == 0 {
        assert(m == 0);
        assert(m * u == 0) by (nonlinear_arith)
            requires
                m == 0,
        ;
    }
    m * u
}

/// Whether `a` is not below `b` once both are in single precision.
pub fn at_least(a: u64, b: u64) -> (r: bool)
    ensures
        r == (single(a as nat) >= single(b as nat)),
{
    single_u128(a as u128) >= single_u128(b as u128)
}

/// `n / d` in single precision, rounded to a whole number.
fn rounded_quotient_u128(n: u128, d: u128) -> (r: u128)
    requires
        0 < d <= 0x4_0000_0000,
        n <= 0x10_0000_0000_0000_0000,
    ensures
        r as nat == rounded_quotient(n as nat, d as nat),
{
    if n >= 0x100_0000 * d {
        let u: u128 = spacing_u128(n, d);
        assert(d * u <= n + d) by {
            assert(d * 1 == d);
        }
        assert(d * u >= 1) by (nonlinear_arith)
            requires
                d >= 1,
                u >= 1,
        ;
        let m: u128 = nearest_u128(n, d * u);
        assert(m * u <= m * (d * u)) by (nonlinear_arith)
            requires
                d >= 1,
                u >= 0,
                m >= 0,
        ;
        m * u
    } else {
        let mut t: u128 = 1;
        assert(n * 1 == n && n * (2 * 1) == 2 * n);
        while n != 0 && n * (2 * t) < 0x100_0000 * d
            invariant
                0 < t,
                t == 1 || t <= 0x400_0000_0000_0000,
                0 < d <= 0x4_0000_0000,
                n * t < 0x100_0000 * d,
                n < 0x100_0000 * d,
                scaling(n as nat, d as nat, 1) == scaling(n as nat, d as nat, t as nat),
                n * (2 * t) <= 0x1000_0000_0000_0000,
            decreases 0x100_0000 * d - n * t,
        {
            assert(n * (2 * t) == 2 * (n * t)) by (nonlinear_arith);
            assert(n * (2 * (2 * t)) == 2 * (n * (2 * t))) by (nonlinear_arith);
            assert(n * t >= t) by (nonlinear_arith)
                requires
                    n >= 1,
                    t > 0,
            ;
            t = 2 * t;
        }
        let m: u128 = nearest_u128(n * t, d);
        (2 * m + t) / (2 * t)
    }
}

/// `h * size / dim` as single-precision arithmetic gives it, rounded to a
/// whole number of 32 bits.
pub fn scale(h: u32, size: u32, dim: u32) -> (r: u32)
    ensures
        r as nat == scaled(h as nat, size as nat, dim as nat),
{
    let a: u128 = single_u128(h as u128);
    let b: u128 = single_u128(size as u128);
    assert(a * b <= 0x2_0000_0000 * 0x2_0000_0000) by (nonlinear_arith)
        requires
            0 <= a <= 0x2_0000_0000,
            0 <= b <= 0x2_0000_0000,
    ;
    let p: u128 = single_u128(a * b);
    let c: u128 = single_u128(dim as u128);
    if c == 0 {
        if p == 0 {
            0
        } else {
            u32::MAX
        }
    } else {
        let q: u128 = rounded_quotient_u128(p, c);
        if q > 0xffff_ffff {
            u32::MAX
        } else {
            q as u32
        }
    }
}

/// Where nothing is lost to the precision, the scaled value is the exact
/// quotient rounded to the nearest whole number: so doubling the size of a
/// square picture doubles the position.
pub proof fn law_scale_by_whole_factor(h: nat, dim: nat, k: nat)
    requires
        h * (k * dim) < 0x100_0000,
        h < 0x100_0000,
        0 < dim,
        k * dim < 0x100_0000,
        dim < 0x100_0000,
    ensures
        scaled(h, k * dim, dim) == h * k,
{
    assert(h * (k * dim) == (h * k) * dim) by (nonlinear_arith);
    let p = h * (k * dim);
    lemma_small_is_single(h);
    lemma_small_is_single(k * dim);
    lemma_small_is_single(p);
    lemma_small_is_single(dim);
    let q = h * k;
    assert(q <= p) by (nonlinear_arith)
        requires
            p == q * dim,
            dim >= 1,
            q >= 0,
    ;
    if p < 0x100_0000 * dim {
        let t = scaling(p, dim, 1);
        lemma_scaling_positive(p, dim, 1);
        lemma_nearest_exact(q * t, dim);
        assert(p * t == (q * t) * dim) by (nonlinear_arith)
            requires
                p == q * dim,
        ;
        assert((2 * (q * t) + t) / (2 * t) == q) by {
            let x = (2 * t) as int;
            assert(2 * (q * t) == q * x) by (nonlinear_arith)
                requires
                    x == 2 * t,
            ;
            vstd::arithmetic::div_mod::lemma_fundamental_div_mod_converse(
                (2 * (q * t) + t) as int,
                x,
                q as int,
                t as int,
            );
        }
    }
}

proof fn lemma_nearest_exact(q: nat, d: nat)
    requires
        d > 0,
    ensures
        nearest(q * d, d) == q,
{
    assert(q * d == q * d + 0);
    vstd::arithmetic::div_mod::lemma_fundamental_div_mod_converse(
        (q * d) as int,
        d as int,
        q as int,
        0,
    );
}

/// Below 2^24 every number is kept as it is, so ages and lifetimes are compared
/// as they are.
pub proof fn law_small_numbers_are_exact(a: nat, b: nat)
    requires
        a < 0x100_0000,
        b < 0x100_0000,
    ensures
        single(a) == a,
        single(a) >= single(b) <==> a >= b,
{
    lemma_small_is_single(a);
    lemma_small_is_single(b);
}

/// Scaling down by a whole factor divides the position, and a position at the
/// edge stays there.
pub proof fn law_scale_down_by_whole_factor(h: nat, size: nat, k: nat)
    requires
        0 < size,
        0 < k,
        h * k < 0x100_0000,
        size < 0x100_0000,
        (h * k) * size < 0x100_0000,
        size * k < 0x100_0000,
    ensures
        scaled(h * k, size, size * k) == h,
        scaled(0, size, size * k) == 0,
{
    let d = size * k;
    let p = (h * k) * size;
    lemma_small_is_single(h * k);
    lemma_small_is_single(size);
    lemma_small_is_single(p);
    lemma_small_is_single(d);
    lemma_small_is_single(0);
    assert(d > 0) by (nonlinear_arith)
        requires
            d == size * k,
            size > 0,
            k > 0,
    ;
    assert(p == h * d) by (nonlinear_arith)
        requires
            p == (h * k) * size,
            d == size * k,
    ;
    assert(h <= p) by (nonlinear_arith)
        requires
            p == h * d,
            d >= 1,
    ;
    assert(0 * size == 0);
    assert(0 == 0 * d);
    lemma_exact_quotient(h, d);
    lemma_exact_quotient(0, d);
}

proof fn lemma_exact_quotient(q: nat, d: nat)
    requires
        d > 0,
        q * d < 0x100_0000,
    ensures
        rounded_quotient(q * d, d) == q,
{
    let p = q * d;
    assert(p < 0x100_0000 * d) by (nonlinear_arith)
        requires
            p < 0x100_0000,
            d >= 1,
    ;
    let t = scaling(p, d, 1);
    lemma_scaling_positive(p, d, 1);
    lemma_nearest_exact(q * t, d);
    assert(p * t == (q * t) * d) by (nonlinear_arith)
        requires
            p == q * d,
    ;
    assert((2 * (q * t) + t) / (2 * t) == q) by {
        let x = (2 * t) as int;
        assert(2 * (q * t) == q * x) by (nonlinear_arith)
            requires
                x == 2 * t,
        ;
        vstd::arithmetic::div_mod::lemma_fundamental_div_mod_converse(
            (2 * (q * t) + t) as int,
            x,
            q as int,
            t as int,
        );
    }
}

proof fn lemma_small_is_single(n: nat)
    requires
        n < 0x100_0000,
    ensures
        single(n) == n,
{
    assert(spacing(n, 1, 1) == 1);
    lemma_nearest_exact(n, 1);
}

proof fn lemma_scaling_positive(n: nat, d: nat, t: nat)
    requires
        t > 0,
    ensures
        scaling(n, d, t) > 0,
    decreases 0x100_0000 * d - n * t,
{
    if n != 0 && n * (2 * t) < 0x100_0000 * d {
        assert(n * t > 0 && n * (2 * t) == 2 * (n * t)) by (nonlinear_arith)
            requires
                n > 0,
                t > 0,
        ;
        lemma_scaling_positive(n, d, 2 * t);
    }
}

} // verus!
