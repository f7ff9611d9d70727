//! Whole steps along a direction.
//!
//! A direction is given by a vector `(x, y)` of integers. The point reached
//! after `s` steps of length one is `s * (x, y) / sqrt(x * x + y * y)`, and
//! the grid cell it falls in is found by cutting each coordinate off toward
//! zero. All of it is computed in integers: `k` is the integer part of
//! `s * c / sqrt(d2)` exactly when `k * k * d2 <= (s * c) * (s * c)` and
//! `(s * c) * (s * c) < (k + 1) * (k + 1) * d2`.

use crate::roots::{floor_sqrt, is_floor_sqrt, isqrt, lemma_floor_sqrt, lemma_square_monotone};
use vstd::arithmetic::div_mod::lemma_fundamental_div_mod;
use vstd::prelude::*;

verus! {

/// Whether `k` is the integer part of `s * c / sqrt(d2)`.
pub open spec fn is_scaled_floor(s: nat, c: nat, d2: nat, k: nat) -> bool {
    k * k * d2 <= (s * c) * (s * c) < (k + 1) * (k + 1) * d2
}

/// The integer part of `s * c / sqrt(d2)`, and 0 where `d2` is 0.
pub open spec fn scaled_floor(s: nat, c: nat, d2: nat) -> nat {
    if d2 == 0 {
        0
    } else {
        choose|k: nat| is_scaled_floor(s, c, d2, k)
    }
}

/// `s * c / sqrt(d2)` cut off toward zero, for a coordinate `c` of either
/// sign.
pub open spec fn scaled_trunc(s: nat, c: int, d2: nat) -> int {
    if c >= 0 {
        scaled_floor(s, c as nat, d2) as int
    } else {
        -(scaled_floor(s, (-c) as nat, d2) as int)
    }
}

/// The square of the length of the vector `(x, y)`.
pub open spec fn norm2_of(x: int, y: int) -> nat {
    (x * x + y * y) as nat
}

/// The first coordinate of the cell reached after `s` unit steps from the
/// origin in the direction `(x, y)`.
pub open spec fn step_x(x: int, y: int, s: nat) -> int {
    scaled_trunc(s, x, norm2_of(x, y))
}

/// The second coordinate of the cell reached after `s` unit steps from the
/// origin in the direction `(x, y)`.
pub open spec fn step_y(x: int, y: int, s: nat) -> int {
    scaled_trunc(s, y, norm2_of(x, y))
}

/// Steps in the opposite direction reach the mirrored cell: cutting off
/// toward zero treats both signs alike.
pub proof fn lemma_steps_mirror(x: int, y: int, s: nat)
    ensures
        step_x(-x, -y, s) == -step_x(x, y, s),
        step_y(-x, -y, s) == -step_y(x, y, s),
{
    let d2 = norm2_of(x, y);
    assert(norm2_of(-x, -y) == d2) by (nonlinear_arith)
        requires
            norm2_of(-x, -y) == ((-x) * (-x) + (-y) * (-y)) as nat,
            d2 == (x * x + y * y) as nat,
    ;
    lemma_scaled_floor_of_zero(s, d2);
}

/// No coordinate moves farther than the steps taken.
pub proof fn lemma_steps_within(x: int, y: int, s: nat)
    ensures
        -s <= step_x(x, y, s) <= s,
        -s <= step_y(x, y, s) <= s,
{
    let d2 = norm2_of(x, y);
    let ax = if x >= 0 {
        x as nat
    } else {
        (-x) as nat
    };
    let ay = if y >= 0 {
        y as nat
    } else {
        (-y) as nat
    };
    assert(ax * ax <= d2 && ay * ay <= d2) by (nonlinear_arith)
        requires
            d2 == (x * x + y * y) as nat,
            ax == x || ax == -x,
            ay == y || ay == -y,
    ;
    lemma_scaled_floor_bounds(s, ax, d2);
    lemma_scaled_floor_bounds(s, ay, d2);
}

/// Along an axis every step advances by one cell.
pub proof fn lemma_steps_on_axis(c: int, s: nat)
    requires
        c != 0,
    ensures
        step_x(c, 0, s) == if c > 0 {
            s as int
        } else {
            -(s as int)
        },
        step_y(c, 0, s) == 0,
        step_x(0, c, s) == 0,
        step_y(0, c, s) == if c > 0 {
            s as int
        } else {
            -(s as int)
        },
{
    let a = if c >= 0 {
        c as nat
    } else {
        (-c) as nat
    };
    assert(norm2_of(c, 0) == a * a && norm2_of(0, c) == a * a) by (nonlinear_arith)
        requires
            norm2_of(c, 0) == (c * c + 0 * 0) as nat,
            norm2_of(0, c) == (0 * 0 + c * c) as nat,
            a == c || a == -c,
    ;
    lemma_scaled_floor_on_axis(s, a);
}

/// The integer part of `s * c / sqrt(d2)` is the integer square root of the
/// integer part of `(s * c) * (s * c) / d2`.
pub proof fn lemma_scaled_floor_as_root(s: nat, c: nat, d2: nat, k: nat)
    requires
        d2 > 0,
    ensures
        is_scaled_floor(s, c, d2, k) <==> is_floor_sqrt(((s * c) * (s * c)) / d2, k),
{
    let n = (s * c) * (s * c);
    let q = n / d2;
    let r = n % d2;
    lemma_fundamental_div_mod(n as int, d2 as int);
    assert(n == d2 * q + r);
    assert(0 <= r < d2);
    let a = k * k;
    let b = (k + 1) * (k + 1);
    assert(a * d2 <= n <==> a <= q) by (nonlinear_arith)
        requires
            n == d2 * q + r,
            0 <= r < d2,
    ;
    assert(n < b * d2 <==> q < b) by (nonlinear_arith)
        requires
            n == d2 * q + r,
            0 <= r < d2,
    ;
}

/// For a length that is not 0, `scaled_floor(s, c, d2)` is the one `k` that
/// is the integer part of `s * c / sqrt(d2)`.
pub proof fn lemma_scaled_floor(s: nat, c: nat, d2: nat, k: nat)
    requires
        d2 > 0,
    ensures
        is_scaled_floor(s, c, d2, scaled_floor(s, c, d2)),
        is_scaled_floor(s, c, d2, k) <==> k == scaled_floor(s, c, d2),
        scaled_floor(s, c, d2) == floor_sqrt(((s * c) * (s * c)) / d2),
{
    let q = ((s * c) * (s * c)) / d2;
    let root = floor_sqrt(q);
    lemma_floor_sqrt(q, k);
    lemma_scaled_floor_as_root(s, c, d2, root);
    lemma_scaled_floor_as_root(s, c, d2, k);
    let chosen = scaled_floor(s, c, d2);
    assert(is_scaled_floor(s, c, d2, root));
    lemma_scaled_floor_as_root(s, c, d2, chosen);
    lemma_floor_sqrt(q, chosen);
}

/// A step count within the length gives no more than the coordinate, and a
/// coordinate within the length gives no more than the step count.
pub proof fn lemma_scaled_floor_bounds(s: nat, c: nat, d2: nat)
    ensures
        s * s <= d2 ==> scaled_floor(s, c, d2) <= c,
        c * c <= d2 ==> scaled_floor(s, c, d2) <= s,
{
    if d2 > 0 {
        let k = scaled_floor(s, c, d2);
        lemma_scaled_floor(s, c, d2, k);
        if s * s <= d2 && k > c {
            lemma_square_monotone(c + 1, k);
            assert(false) by (nonlinear_arith)
                requires
                    k * k * d2 <= (s * c) * (s * c),
                    s * s <= d2,
                    (c + 1) * (c + 1) <= k * k,
                    d2 > 0,
            ;
        }
        if c * c <= d2 && k > s {
            lemma_square_monotone(s + 1, k);
            assert(false) by (nonlinear_arith)
                requires
                    k * k * d2 <= (s * c) * (s * c),
                    c * c <= d2,
                    (s + 1) * (s + 1) <= k * k,
                    d2 > 0,
            ;
        }
    }
}

/// One more step never leads back.
pub proof fn lemma_scaled_floor_monotone(s: nat, c: nat, d2: nat)
    ensures
        scaled_floor(s, c, d2) <= scaled_floor(s + 1, c, d2),
{
    if d2 > 0 {
        let k = scaled_floor(s, c, d2);
        let next = scaled_floor(s + 1, c, d2);
        lemma_scaled_floor(s, c, d2, 0);
        lemma_scaled_floor(s + 1, c, d2, 0);
        assert(s * c <= (s + 1) * c) by (nonlinear_arith);
        lemma_square_monotone(s * c, (s + 1) * c);
        if next < k {
            lemma_square_monotone(next + 1, k);
            assert((next + 1) * (next + 1) * d2 <= k * k * d2) by (nonlinear_arith)
                requires
                    (next + 1) * (next + 1) <= k * k,
            ;
        }
    }
}

/// One more step leads no farther than to the next cell, where the
/// coordinate is one of a vector whose squared length is `d2`.
pub proof fn lemma_scaled_floor_unit_step(s: nat, c: nat, d2: nat)
    requires
        c * c <= d2,
    ensures
        scaled_floor(s + 1, c, d2) <= scaled_floor(s, c, d2) + 1,
{
    if d2 > 0 {
        let k = scaled_floor(s, c, d2);
        let next = scaled_floor(s + 1, c, d2);
        lemma_scaled_floor(s, c, d2, 0);
        lemma_scaled_floor(s + 1, c, d2, 0);
        let a = s * c;
        let b = (s + 1) * c;
        let m = k + 1;
        assert(b == a + c) by (nonlinear_arith)
            requires
                a == s * c,
                b == (s + 1) * c,
        ;
        assert(a * a < m * m * d2);
        // a * c < m * d2, by comparing the squares
        if a * c >= m * d2 {
            lemma_square_monotone(m * d2, a * c);
            assert((a * c) * (a * c) == (a * a) * (c * c)) by (nonlinear_arith);
            assert((a * a) * (c * c) <= (a * a) * d2) by (nonlinear_arith)
                requires
                    c * c <= d2,
            ;
            assert((a * a) * d2 < (m * m * d2) * d2) by (nonlinear_arith)
                requires
                    a * a < m * m * d2,
                    d2 > 0,
            ;
            assert((m * m * d2) * d2 == (m * d2) * (m * d2)) by (nonlinear_arith);
            assert(false);
        }
        assert(b * b < (m + 1) * (m + 1) * d2) by (nonlinear_arith)
            requires
                b == a + c,
                a * a < m * m * d2,
                a * c < m * d2,
                c * c <= d2,
        ;
        if next > k + 1 {
            lemma_square_monotone(m + 1, next);
            assert((m + 1) * (m + 1) * d2 <= next * next * d2) by (nonlinear_arith)
                requires
                    (m + 1) * (m + 1) <= next * next,
            ;
        }
    }
}

/// After as many steps as fit in the length, less than one cell is left
/// to the coordinate.
pub proof fn lemma_scaled_floor_near_end(len: nat, c: nat, d2: nat)
    requires
        is_floor_sqrt(d2, len),
        c * c <= d2,
    ensures
        c <= scaled_floor(len, c, d2) + 1,
        scaled_floor(len, c, d2) <= c,
{
    lemma_scaled_floor_bounds(len, c, d2);
    if d2 == 0 {
        assert(c == 0) by (nonlinear_arith)
            requires
                c * c <= 0,
        ;
    }
    if d2 > 0 && c >= 1 {
        let k = scaled_floor(len, c, d2);
        lemma_scaled_floor(len, c, d2, 0);
        if c > len {
            lemma_square_monotone(len + 1, c);
        }
        let p = (c - 1) as nat;
        let q = len * c;
        assert(p * (len + 1) <= q) by (nonlinear_arith)
            requires
                p + 1 == c,
                c <= len,
                q == len * c,
        ;
        lemma_square_monotone(p * (len + 1), q);
        assert(p * p * d2 <= (p * (len + 1)) * (p * (len + 1))) by (nonlinear_arith)
            requires
                d2 < (len + 1) * (len + 1),
        ;
        if k + 1 < c {
            lemma_square_monotone(k + 1, p);
            assert((k + 1) * (k + 1) * d2 <= p * p * d2) by (nonlinear_arith)
                requires
                    (k + 1) * (k + 1) <= p * p,
            ;
        }
    }
}

/// A coordinate of 0 stays 0.
pub proof fn lemma_scaled_floor_of_zero(s: nat, d2: nat)
    ensures
        scaled_floor(s, 0, d2) == 0,
{
    if d2 > 0 {
        assert(is_scaled_floor(s, 0, d2, 0)) by (nonlinear_arith)
            requires
                d2 > 0,
        ;
        lemma_scaled_floor(s, 0, d2, 0);
    }
}

/// Along an axis that carries the whole length, every step advances by one.
pub proof fn lemma_scaled_floor_on_axis(s: nat, c: nat)
    requires
        c > 0,
    ensures
        scaled_floor(s, c, c * c) == s,
        scaled_floor(s, 0, c * c) == 0,
{
    let d2 = c * c;
    assert(d2 > 0) by (nonlinear_arith)
        requires
            d2 == c * c,
            c > 0,
    ;
    assert(is_scaled_floor(s, c, d2, s)) by (nonlinear_arith)
        requires
            d2 == c * c,
            c > 0,
    ;
    lemma_scaled_floor(s, c, d2, s);
    assert(is_scaled_floor(s, 0, d2, 0)) by (nonlinear_arith)
        requires
            d2 > 0,
    ;
    lemma_scaled_floor(s, 0, d2, 0);
}

/// After as many steps as the length, a length that is whole reaches the
/// coordinate itself.
pub proof fn lemma_scaled_floor_at_whole_length(len: nat, c: nat)
    requires
        len > 0,
    ensures
        scaled_floor(len, c, len * len) == c,
{
    let d2 = len * len;
    assert(d2 > 0 && is_scaled_floor(len, c, d2, c)) by (nonlinear_arith)
        requires
            d2 == len * len,
            len > 0,
    ;
    lemma_scaled_floor(len, c, d2, c);
}

/// Computes the integer part of `s * c / sqrt(d2)`, where `c` is a
/// coordinate of a vector whose squared length is `d2`.
pub fn scaled_floor_of(s: u32, c: u32, d2: u64) -> (k: u32)
    requires
        c * c <= d2,
    ensures
        k == scaled_floor(s as nat, c as nat, d2 as nat),
        k <= s,
{
    proof {
        lemma_scaled_floor_bounds(s as nat, c as nat, d2 as nat);
    }
    if d2 == 0 {
        return 0;
    }
    assert(s * c <= 0xffff_ffff * 0xffff_ffff) by (nonlinear_arith)
        requires
            s <= 0xffff_ffff,
            c <= 0xffff_ffff,
    ;
    let p: u64 = (s as u64) * (c as u64);
    assert(p * p <= 0xffff_ffff_ffff_ffff * 0xffff_ffff_ffff_ffff) by (nonlinear_arith)
        requires
            p <= 0xffff_ffff_ffff_ffff,
    ;
    let n: u128 = (p as u128) * (p as u128);
    let q: u128 = n / (d2 as u128);
    proof {
        lemma_scaled_floor(s as nat, c as nat, d2 as nat, 0);
        let k = scaled_floor(s as nat, c as nat, d2 as nat);
        assert(p as nat == (s as nat) * (c as nat));
        assert(n as nat == ((s as nat) * (c as nat)) * ((s as nat) * (c as nat)));
        assert(q as nat == (((s as nat) * (c as nat)) * ((s as nat) * (c as nat))) / (d2 as nat));
        lemma_floor_sqrt(q as nat, k);
        assert(k * k <= s * s) by {
            lemma_square_monotone(k, s as nat);
        }
        assert((k + 1) * (k + 1) <= 0x1_0000_0000 * 0x1_0000_0000) by {
            lemma_square_monotone(k + 1, 0x1_0000_0000);
        }
    }
    isqrt(q as u64)
}

/// The absolute value of a coordinate.
pub fn magnitude(c: i32) -> (m: u32)
    ensures
        m == if c >= 0 {
            c as int
        } else {
            -(c as int)
        },
{
    if c >= 0 {
        c as u32
    } else {
        (-(c as i64)) as u32
    }
}

/// Computes `s * c / sqrt(d2)` cut off toward zero, where `c` is a
/// coordinate of a vector whose squared length is `d2`.
pub fn scaled_trunc_of(s: u32, c: i32, d2: u64) -> (t: i64)
    requires
        c * c <= d2,
    ensures
        t == scaled_trunc(s as nat, c as int, d2 as nat),
        -s <= t <= s,
{
    let m: u32 = magnitude(c);
    assert(m * m == c * c) by (nonlinear_arith)
        requires
            m == c || m == -c,
    ;
    let k: u32 = scaled_floor_of(s, m, d2);
    if c >= 0 {
        k as i64
    } else {
        -(k as i64)
    }
}

} // verus!
