//! Vectors in the plane with integer components, and the integer square root
//! that stands in for a vector's length.
use vstd::prelude::*;
use vector2d::Vector2D;

verus! {

/// A vector in the plane. Its components are wide enough for every product
/// that the simulation forms from coordinates, speeds and elapsed times.
#[derive(Clone, Copy, Debug, PartialEq, Eq, Structural)]
pub struct Vector {
    pub x: i128,
    pub y: i128,
}

/// The quotient of `a` by a positive `b`, rounded toward zero.
pub open spec fn truncated_quotient(a: int, b: int) -> int {
    if a >= 0 {
        a / b
    } else {
        -((-a) / b)
    }
}

/// The squared length of the vector `(x, y)`.
pub open spec fn length_squared(x: int, y: int) -> int {
    x * x + y * y
}

/// `r` is the square root of `n`, rounded down.
pub open spec fn is_floor_sqrt(n: int, r: int) -> bool {
    0 <= r && r * r <= n < (r + 1) * (r + 1)
}

/// The square root of `n`, rounded down.
pub open spec fn floor_sqrt(n: int) -> int {
    choose|r: int| is_floor_sqrt(n, r)
}

/// A number has at most one rounded-down square root.
pub proof fn lemma_floor_sqrt_unique(n: int, r: int, s: int)
    requires
        is_floor_sqrt(n, r),
        is_floor_sqrt(n, s),
    ensures
        r == s,
{
    assert(r <= s) by (nonlinear_arith)
        requires
            0 <= r,
            0 <= s,
            r * r <= n,
            n < (s + 1) * (s + 1),
    ;
    assert(s <= r) by (nonlinear_arith)
        requires
            0 <= r,
            0 <= s,
            s * s <= n,
            n < (r + 1) * (r + 1),
    ;
}

/// Whatever number passes for the rounded-down square root of `n` is
/// `floor_sqrt(n)`.
pub proof fn lemma_floor_sqrt_is(n: int, r: int)
    requires
        is_floor_sqrt(n, r),
    ensures
        floor_sqrt(n) == r,
{
    let chosen = floor_sqrt(n);
    assert(is_floor_sqrt(n, chosen));
    lemma_floor_sqrt_unique(n, chosen, r);
}

/// A number between `-bound` and `bound` has a square of at most `bound`
/// squared.
pub proof fn lemma_square_bound(a: int, bound: int)
    requires
        -bound <= a <= bound,
    ensures
        0 <= a * a <= bound * bound,
{
    assert(0 <= a * a <= bound * bound) by (nonlinear_arith)
        requires
            -bound <= a <= bound,
    ;
}

/// Dividing a number between `-b * k` and `b * k` by `b` gives one between
/// `-k` and `k`.
pub proof fn lemma_truncated_quotient_bound(a: int, b: int, k: int)
    requires
        b > 0,
        k >= 0,
        -(b * k) <= a <= b * k,
    ensures
        -k <= truncated_quotient(a, b) <= k,
        a >= 0 ==> truncated_quotient(a, b) >= 0,
        a <= 0 ==> truncated_quotient(a, b) <= 0,
{
    if a >= 0 {
        assert(0 <= a / b <= k) by (nonlinear_arith)
            requires
                b > 0,
                0 <= a <= b * k,
        ;
    } else {
        let m = -a;
        assert(0 <= m / b <= k) by (nonlinear_arith)
            requires
                b > 0,
                0 <= m <= b * k,
        ;
    }
}

/// Every number that is not negative has a rounded-down square root.
pub proof fn lemma_floor_sqrt_exists(n: int)
    requires
        n >= 0,
    ensures
        is_floor_sqrt(n, floor_sqrt(n)),
    decreases n,
{
    if n == 0 {
        assert(is_floor_sqrt(0, 0));
    } else {
        lemma_floor_sqrt_exists(n - 1);
        let r = floor_sqrt(n - 1);
        if n < (r + 1) * (r + 1) {
            assert(is_floor_sqrt(n, r));
        } else {
            assert(n == (r + 1) * (r + 1));
            assert((r + 1) * (r + 1) < (r + 2) * (r + 2)) by (nonlinear_arith)
                requires
                    r >= 0,
            ;
            assert(is_floor_sqrt(n, r + 1));
        }
    }
}

/// `Vector2D - Vector2D`: the difference, component by component.
#[verifier::external_body]
pub(crate) fn vector_difference(a: Vector, b: Vector) -> (d: Vector)
    requires
        i128::MIN <= a.x - b.x <= i128::MAX,
        i128::MIN <= a.y - b.y <= i128::MAX,
    ensures
        d.x == a.x - b.x,
        d.y == a.y - b.y,
{
    let d = Vector2D::new(a.x, a.y) - Vector2D::new(b.x, b.y);
    Vector { x: d.x, y: d.y }
}

/// `Vector2D * scalar`: each component multiplied by `k`.
#[verifier::external_body]
pub(crate) fn vector_scaled(a: Vector, k: i128) -> (s: Vector)
    requires
        i128::MIN <= a.x * k <= i128::MAX,
        i128::MIN <= a.y * k <= i128::MAX,
    ensures
        s.x == a.x * k,
        s.y == a.y * k,
{
    let s = Vector2D::new(a.x, a.y) * k;
    Vector { x: s.x, y: s.y }
}

/// `Vector2D / scalar` on integers: each component divided by `k` and rounded
/// toward zero.
#[verifier::external_body]
pub(crate) fn vector_divided(a: Vector, k: i128) -> (q: Vector)
    requires
        k > 0,
    ensures
        q.x == truncated_quotient(a.x as int, k as int),
        q.y == truncated_quotient(a.y as int, k as int),
{
    let q = Vector2D::new(a.x, a.y) / k;
    Vector { x: q.x, y: q.y }
}

/// `Vector2D::length_squared`: the sum of the squares of the components.
#[verifier::external_body]
pub(crate) fn vector_length_squared(a: Vector) -> (l: i128)
    requires
        length_squared(a.x as int, a.y as int) <= i128::MAX,
    ensures
        l == length_squared(a.x as int, a.y as int),
{
    Vector2D::new(a.x, a.y).length_squared()
}

/// The quotient of `a` by a positive `b`, rounded toward zero.
pub fn truncated_div(a: i128, b: i128) -> (q: i128)
    requires
        b > 0,
        a > i128::MIN,
    ensures
        q == truncated_quotient(a as int, b as int),
{
    if a >= 0 {
        a / b
    } else {
        let magnitude: i128 = -a;
        assert(0 <= magnitude / b <= magnitude) by (nonlinear_arith)
            requires
                magnitude >= 0,
                b > 0,
        ;
        -(magnitude / b)
    }
}

/// The square root of `n`, rounded down.
pub fn integer_sqrt(n: u128) -> (r: u128)
    ensures
        r == floor_sqrt(n as int),
        is_floor_sqrt(n as int, r as int),
{
    let mut low: u128 = 0;
    let mut high: u128 = 0x1_0000_0000_0000_0000;
    assert(n < high * high) by (nonlinear_arith)
        requires
            n <= u128::MAX,
            high == 0x1_0000_0000_0000_0000,
    ;
    while high - low > 1
        invariant
            low < high <= 0x1_0000_0000_0000_0000,
            low * low <= n < high * high,
        decreases high - low,
    {
        let mid: u128 = low + (high - low) / 2;
        assert(mid * mid <= u128::MAX) by (nonlinear_arith)
            requires
                0 <= mid < 0x1_0000_0000_0000_0000,
        ;
        if mid * mid <= n {
            low = mid;
        } else {
            high = mid;
        }
    }
    proof {
        assert(high == low + 1);
        lemma_floor_sqrt_is(n as int, low as int);
    }
    low
}

} // verus!
