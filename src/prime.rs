//! Primality of 64-bit integers.
use vstd::prelude::*;

verus! {

/// `n` is prime: at least two, and divisible by no integer strictly
/// between one and itself.
pub open spec fn prime(n: int) -> bool {
    n >= 2 && forall|d: int| 2 <= d < n ==> #[trigger] (n % d) != 0
}

/// Where `n` has a divisor `k` with `d <= k < n` and `n < d * d`, it also
/// has one in `[2, d)`.
proof fn lemma_small_cofactor(n: int, d: int, k: int)
    requires
        2 <= d <= k < n,
        n % k == 0,
        n < d * d,
    ensures
        2 <= n / k < d,
        n % (n / k) == 0,
{
    let j = n / k;
    vstd::arithmetic::div_mod::lemma_fundamental_div_mod(n, k);
    assert(n == k * j);
    assert(j >= 2) by (nonlinear_arith)
        requires
            n == k * j,
            2 <= k < n,
    ;
    assert(j < d) by (nonlinear_arith)
        requires
            n == k * j,
            d <= k,
            n < d * d,
            d >= 2,
    ;
    vstd::arithmetic::div_mod::lemma_mod_multiples_basic(k, j);
    assert(k * j == j * k) by (nonlinear_arith);
}

/// Whether `num` is prime. Trial division stops at the integer square root.
pub fn is_prime(num: i64) -> (r: bool)
    ensures
        r == prime(num as int),
{
    if num < 2 {
        return false;
    }
    let mut d: i64 = 2;
    while d <= num / d
        invariant
            2 <= d <= num,
            forall|k: int| 2 <= k < d ==> #[trigger] (num as int % k) != 0,
        decreases num - d,
    {
        proof {
            assert(d + 1 <= num) by (nonlinear_arith)
                requires
                    2 <= d,
                    d <= num / d,
                    num >= 2,
            ;
        }
        if num % d == 0 {
            proof {
                assert((num as int % d as int) == 0);
            }
            return false;
        }
        d = d + 1;
    }
    proof {
        let n = num as int;
        let di = d as int;
        assert(n < di * di) by (nonlinear_arith)
            requires
                di > n / di,
                di >= 2,
                n >= 2,
        ;
        assert forall|k: int| 2 <= k < n implies #[trigger] (n % k) != 0 by {
            if k >= di && n % k == 0 {
                lemma_small_cofactor(n, di, k);
                let j = n / k;
                assert(n % j != 0);
            }
        }
    }
    true
}

} // verus!
