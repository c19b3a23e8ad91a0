use vstd::prelude::*;

verus! {

/// `s` is the integer square root of `n`: the largest `s` with `s * s <= n`.
pub open spec fn is_floor_sqrt(n: int, s: int) -> bool {
    0 <= s && s * s <= n && n < (s + 1) * (s + 1)
}

/// The integer square root of `n`, rounded down.
pub open spec fn floor_sqrt(n: nat) -> nat
    decreases n,
{
    if n == 0 {
        0
    } else {
        let s = floor_sqrt((n - 1) as nat);
        if (s + 1) * (s + 1) <= n {
            s + 1
        } else {
            s
        }
    }
}

pub proof fn lemma_floor_sqrt(n: nat)
    ensures
        is_floor_sqrt(n as int, floor_sqrt(n) as int),
    decreases n,
{
    if n > 0 {
        lemma_floor_sqrt((n - 1) as nat);
        let s = floor_sqrt((n - 1) as nat) as int;
        assert((s + 1) * (s + 1) < (s + 2) * (s + 2)) by (nonlinear_arith)
            requires
                s >= 0,
        ;
    }
}

pub proof fn lemma_floor_sqrt_unique(n: nat, s: int)
    requires
        is_floor_sqrt(n as int, s),
    ensures
        s == floor_sqrt(n),
{
    lemma_floor_sqrt(n);
    let t = floor_sqrt(n) as int;
    assert(s == t) by (nonlinear_arith)
        requires
            is_floor_sqrt(n as int, s),
            is_floor_sqrt(n as int, t),
    {
        if s < t {
            assert((s + 1) * (s + 1) <= t * t);
        } else if t < s {
            assert((t + 1) * (t + 1) <= s * s);
        }
    }
}

/// The integer square root of `n`, by bisection.
pub fn isqrt(n: u128) -> (s: u64)
    ensures
        s as nat == floor_sqrt(n as nat),
{
    let mut lo: u128 = 0;
    let mut hi: u128 = 0x1_0000_0000_0000_0000;
    assert(hi * hi == 0x1_0000_0000_0000_0000_0000_0000_0000_0000);
    while hi - lo > 1
        invariant
            lo < hi <= 0x1_0000_0000_0000_0000,
            lo * lo <= n,
            n < hi * hi,
        decreases hi - lo,
    {
        let mid: u128 = lo + (hi - lo) / 2;
        assert(mid * mid <= 0xffff_ffff_ffff_fffe_0000_0000_0000_0001) by (nonlinear_arith)
            requires
                mid < 0x1_0000_0000_0000_0000,
        ;
        if mid * mid <= n {
            lo = mid;
        } else {
            hi = mid;
        }
    }
    proof {
        lemma_floor_sqrt_unique(n as nat, lo as int);
    }
    lo as u64
}

/// The square root of `n` rounded to the nearest integer: `sqrt(n) + 1/2`
/// rounded down, which is `(floor_sqrt(4 n) + 1) / 2`.
pub open spec fn round_sqrt(n: nat) -> nat {
    ((floor_sqrt(4 * n) + 1) / 2) as nat
}

/// The rounded root `s` is within half a unit of the true root, so its
/// square is within `s` of `n`.
pub proof fn lemma_round_sqrt(n: nat)
    ensures
        round_sqrt(n) * round_sqrt(n) <= n + round_sqrt(n),
        n <= round_sqrt(n) * round_sqrt(n) + round_sqrt(n),
        n > 0 ==> round_sqrt(n) > 0,
{
    lemma_floor_sqrt(4 * n);
    let t = floor_sqrt(4 * n) as int;
    let s = round_sqrt(n) as int;
    let m = n as int;
    if t % 2 == 0 {
        assert(t == 2 * s);
    } else {
        assert(t == 2 * s - 1);
    }
    assert(s * s <= m + s && m <= s * s + s && (m > 0 ==> s > 0)) by (nonlinear_arith)
        requires
            t * t <= 4 * m,
            4 * m < (t + 1) * (t + 1),
            t >= 0,
            m >= 0,
            t == 2 * s || t == 2 * s - 1,
    ;
}

/// The square root of `n` rounded to the nearest integer.
pub fn isqrt_round(n: u128) -> (s: u64)
    requires
        n <= 0x3fff_ffff_ffff_ffff_ffff_ffff_ffff_ffff,
    ensures
        s as nat == round_sqrt(n as nat),
{
    let t = isqrt(4 * n);
    ((t as u128 + 1) / 2) as u64
}

} // verus!
