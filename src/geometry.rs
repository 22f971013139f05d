//! Fixed-point scale, floor division and the integer square root.
use vstd::prelude::*;

verus! {

/// One grid unit in fixed-point coordinates.
pub const ONE: i64 = 65536;

/// `ONE` as a mathematical integer.
pub open spec fn one() -> int {
    65536
}

/// Floor of `a / b` for a positive divisor.
pub fn div_floor(a: i64, b: i64) -> (r: i64)
    requires
        b > 0,
    ensures
        r == a / b,
{
    assert(i64::MIN <= a / b <= i64::MAX) by (nonlinear_arith)
        requires
            b > 0,
            i64::MIN <= a <= i64::MAX,
    ;
    match a.checked_div_euclid(b) {
        Some(q) => q,
        None => 0,
    }
}

/// Whether `r` is the floor of the square root of `n`.
pub open spec fn is_sqrt_floor(n: int, r: int) -> bool {
    0 <= r && r * r <= n < (r + 1) * (r + 1)
}

/// The floor of the square root of `n`.
pub open spec fn sqrt_floor(n: nat) -> int {
    choose|r: int| is_sqrt_floor(n as int, r)
}

/// The floor square root is unique.
pub proof fn lemma_sqrt_floor_unique(n: int, r1: int, r2: int)
    requires
        is_sqrt_floor(n, r1),
        is_sqrt_floor(n, r2),
    ensures
        r1 == r2,
{
    if r1 < r2 {
        assert((r1 + 1) * (r1 + 1) <= r2 * r2) by (nonlinear_arith)
            requires
                0 <= r1 + 1 <= r2,
        ;
    } else if r2 < r1 {
        assert((r2 + 1) * (r2 + 1) <= r1 * r1) by (nonlinear_arith)
            requires
                0 <= r2 + 1 <= r1,
        ;
    }
}

/// Bound on the radicands that `isqrt` accepts.
pub open spec fn sqrt_limit() -> int {
    0x40_0000_0000_0000_0000_0000
}

/// Integer square root, rounded down.
pub fn isqrt(n: u128) -> (r: u64)
    requires
        n < sqrt_limit(),
    ensures
        r == sqrt_floor(n as nat),
        (r as int) < 0x800_0000_0000,
{
    // invariant: lo * lo <= n < hi * hi
    let mut lo: u128 = 0;
    let mut hi: u128 = 0x800_0000_0000;
    assert(0x800_0000_0000u128 * 0x800_0000_0000u128 == sqrt_limit());
    while lo + 1 < hi
        invariant
            lo < hi <= 0x800_0000_0000,
            lo * lo <= n,
            n < hi * hi,
        decreases hi - lo,
    {
        let mid: u128 = lo + (hi - lo) / 2;
        assert(mid * mid <= 0x800_0000_0000u128 * 0x800_0000_0000u128) by (nonlinear_arith)
            requires
                mid <= 0x800_0000_0000u128,
        ;
        if mid * mid <= n {
            lo = mid;
        } else {
            hi = mid;
        }
    }
    assert(is_sqrt_floor(n as int, lo as int));
    proof {
        lemma_sqrt_floor_unique(n as int, lo as int, sqrt_floor(n as nat));
    }
    lo as u64
}

/// Euclidean length of an offset, rounded down.
pub open spec fn offset_length(dx: int, dy: int) -> int {
    sqrt_floor((dx * dx + dy * dy) as nat)
}

/// Length of the offset `(dx, dy)`, rounded down to a fixed-point unit.
pub fn distance(dx: i64, dy: i64) -> (r: u64)
    requires
        -0x400_0000_0000 <= dx <= 0x400_0000_0000,
        -0x400_0000_0000 <= dy <= 0x400_0000_0000,
    ensures
        r == offset_length(dx as int, dy as int),
        (r as int) < 0x800_0000_0000,
{
    let wx: i128 = dx as i128;
    let wy: i128 = dy as i128;
    assert(wx * wx <= 0x10_0000_0000_0000_0000_0000) by (nonlinear_arith)
        requires
            -0x400_0000_0000 <= wx <= 0x400_0000_0000,
    ;
    assert(wy * wy <= 0x10_0000_0000_0000_0000_0000) by (nonlinear_arith)
        requires
            -0x400_0000_0000 <= wy <= 0x400_0000_0000,
    ;
    assert(wx * wx >= 0 && wy * wy >= 0) by (nonlinear_arith);
    let sum: i128 = wx * wx + wy * wy;
    isqrt(sum as u128)
}


/// Every natural number has a floor square root.
pub proof fn lemma_sqrt_exists(n: int)
    requires
        n >= 0,
    ensures
        exists|r: int| #[trigger] is_sqrt_floor(n, r),
    decreases n,
{
    if n == 0 {
        assert(is_sqrt_floor(0, 0));
    } else {
        lemma_sqrt_exists(n - 1);
        let r = choose|r: int| #[trigger] is_sqrt_floor(n - 1, r);
        if (r + 1) * (r + 1) <= n {
            assert(n < (r + 2) * (r + 2)) by (nonlinear_arith)
                requires
                    r >= 0,
                    n - 1 < (r + 1) * (r + 1),
            ;
            assert(is_sqrt_floor(n, r + 1));
        } else {
            assert(is_sqrt_floor(n, r));
        }
    }
}

/// The floor square root of a radicand below `sqrt_limit()` is below
/// `2^43` and is one.
pub proof fn lemma_sqrt_bounded(n: int)
    requires
        0 <= n < sqrt_limit(),
    ensures
        is_sqrt_floor(n, sqrt_floor(n as nat)),
        0 <= sqrt_floor(n as nat) < 0x800_0000_0000,
{
    lemma_sqrt_exists(n);
    let r = sqrt_floor(n as nat);
    assert(is_sqrt_floor(n, r));
    if r >= 0x800_0000_0000 {
        assert(r * r >= 0x800_0000_0000 * 0x800_0000_0000) by (nonlinear_arith)
            requires
                r >= 0x800_0000_0000,
        ;
    }
}

} // verus!
