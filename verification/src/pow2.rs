use vstd::prelude::*;

verus! {

/// True of the powers of two: 1, 2, 4, 8, ...
pub open spec fn is_pow2(n: nat) -> bool
    decreases n,
{
    if n == 0 {
        false
    } else if n == 1 {
        true
    } else {
        n % 2 == 0 && is_pow2(n / 2)
    }
}

/// 2 raised to the `e`th power.
pub open spec fn pow2(e: nat) -> nat
    decreases e,
{
    if e == 0 {
        1
    } else {
        2 * pow2((e - 1) as nat)
    }
}

/// The least power of two at or above `n` (and 1 for `n == 0`).
pub open spec fn next_pow2(n: nat) -> nat
    decreases n,
{
    if n <= 1 {
        1
    } else {
        2 * next_pow2((n + 1) / 2)
    }
}

/// The rounding target is itself a power of two, at or above its argument,
/// and below twice its argument.
pub proof fn lemma_next_pow2_bounds(n: nat)
    ensures
        is_pow2(next_pow2(n)),
        next_pow2(n) >= n,
        next_pow2(n) >= 1,
        n >= 1 ==> next_pow2(n) < 2 * n,
    decreases n,
{
    if n > 1 {
        lemma_next_pow2_bounds((n + 1) / 2);
    }
}

/// Distinct powers of two differ by at least a factor of two.
pub proof fn lemma_pow2_ordering(a: nat, b: nat)
    requires
        is_pow2(a),
        is_pow2(b),
        a < b,
    ensures
        2 * a <= b,
    decreases a,
{
    if a > 1 {
        lemma_pow2_ordering(a / 2, b / 2);
    }
}

/// No power of two at or above `n` sits below the rounding target.
pub proof fn lemma_next_pow2_least(n: nat, p: nat)
    requires
        is_pow2(p),
        p >= n,
    ensures
        p >= next_pow2(n),
    decreases n,
{
    if n > 1 {
        lemma_next_pow2_least((n + 1) / 2, p / 2);
    }
}

/// A product of powers of two is a power of two.
pub proof fn lemma_pow2_mul(a: nat, b: nat)
    requires
        is_pow2(a),
        is_pow2(b),
    ensures
        is_pow2(a * b),
    decreases a,
{
    if a == 1 {
        assert(a * b == b);
    } else {
        lemma_pow2_mul(a / 2, b);
        assert(a == 2 * (a / 2));
        assert(a * b == 2 * ((a / 2) * b)) by (nonlinear_arith)
            requires
                a == 2 * (a / 2),
        ;
    }
}

/// Every exact power of two satisfies the power-of-two predicate.
pub proof fn lemma_pow2_is_pow2(e: nat)
    ensures
        is_pow2(pow2(e)),
    decreases e,
{
    if e > 0 {
        lemma_pow2_is_pow2((e - 1) as nat);
        lemma_pow2_pos((e - 1) as nat);
    }
}

/// 2^63 is a power of two.
pub proof fn lemma_pow2_63_is_pow2()
    ensures
        is_pow2(0x8000_0000_0000_0000nat),
{
    lemma_pow2_63();
    lemma_pow2_is_pow2(63);
}

/// Rounds up to the next power of two.
pub fn next_pow2_u64(n: u64) -> (r: u64)
    requires
        n <= 0x8000_0000_0000_0000,
    ensures
        r == next_pow2(n as nat),
        is_pow2(r as nat),
        r >= n,
        r <= 0x8000_0000_0000_0000,
{
    proof {
        lemma_next_pow2_bounds(n as nat);
        if n >= 1 && next_pow2(n as nat) > 0x8000_0000_0000_0000 {
            lemma_pow2_63_is_pow2();
            lemma_pow2_ordering(0x8000_0000_0000_0000nat, next_pow2(n as nat));
            assert(false);
        }
    }
    let mut p: u64 = 1;
    while p < n
        invariant
            n <= 0x8000_0000_0000_0000,
            is_pow2(p as nat),
            p <= next_pow2(n as nat),
            next_pow2(n as nat) <= 0x8000_0000_0000_0000,
        decreases next_pow2(n as nat) - p,
    {
        proof {
            lemma_next_pow2_bounds(n as nat);
            lemma_pow2_ordering(p as nat, next_pow2(n as nat));
        }
        p = p * 2;
    }
    proof {
        lemma_next_pow2_least(n as nat, p as nat);
    }
    p
}

/// The exact base-two logarithm of a power of two.
pub fn log2_u64(n: u64) -> (r: u64)
    requires
        is_pow2(n as nat),
    ensures
        pow2(r as nat) == n,
        r <= 63,
{
    let mut m: u64 = n;
    let mut e: u64 = 0;
    proof {
        assert(pow2(0) == 1);
        assert(pow2(0) * (n as nat) == n as nat);
    }
    while m > 1
        invariant
            is_pow2(m as nat),
            m >= 1,
            pow2(e as nat) * (m as nat) == n as nat,
            e <= 63,
        decreases m,
    {
        proof {
            assert(pow2((e + 1) as nat) == 2 * pow2(e as nat));
            assert(pow2((e + 1) as nat) * ((m as nat) / 2) == pow2(e as nat) * (m as nat)) by (
            nonlinear_arith)
                requires
                    (m as nat) % 2 == 0,
                    m as nat >= 1,
                    pow2((e + 1) as nat) == 2 * pow2(e as nat),
            ;
            if e >= 63 {
                lemma_pow2_63();
                assert(pow2(e as nat) * (m as nat) >= 0x8000_0000_0000_0000 * 2) by (
                nonlinear_arith)
                    requires
                        pow2(e as nat) >= 0x8000_0000_0000_0000,
                        m as nat >= 2,
                ;
                assert(false);
            }
        }
        m = m / 2;
        e = e + 1;
    }
    proof {
        assert(pow2(e as nat) * 1 == pow2(e as nat));
    }
    e
}

/// The base-two logarithm, rounded down.
pub open spec fn log2(n: nat) -> nat
    decreases n,
{
    if n <= 1 {
        0
    } else {
        1 + log2(n / 2)
    }
}

/// The logarithm inverts exact exponentiation.
pub proof fn lemma_log2_pow2(e: nat)
    ensures
        log2(pow2(e)) == e,
    decreases e,
{
    if e > 0 {
        lemma_log2_pow2((e - 1) as nat);
        lemma_pow2_pos((e - 1) as nat);
    }
}

/// Tests whether a machine word is a power of two.
pub fn is_pow2_u64(n: u64) -> (r: bool)
    ensures
        r == is_pow2(n as nat),
{
    if n == 0 {
        return false;
    }
    let mut m: u64 = n;
    while m > 1
        invariant
            m >= 1,
            is_pow2(n as nat) <==> is_pow2(m as nat),
        decreases m,
    {
        if m % 2 == 1 {
            return false;
        }
        m = m / 2;
    }
    true
}

/// Division rounding up.
pub open spec fn div_ceil_spec(a: nat, b: nat) -> nat {
    (a + b - 1) as nat / b
}

/// Divides, rounding up.
pub fn div_ceil_u64(a: u64, b: u64) -> (r: u64)
    requires
        b >= 1,
    ensures
        r == div_ceil_spec(a as nat, b as nat),
{
    let q = a / b;
    let rem = a % b;
    proof {
        vstd::arithmetic::div_mod::lemma_fundamental_div_mod(a as int, b as int);
        if rem == 0 {
            assert((a + b - 1) as int == (b as int) * (q as int) + (b - 1)) by (nonlinear_arith)
                requires
                    a as int == (b as int) * (q as int) + rem,
                    rem == 0,
                    b >= 1,
            ;
            vstd::arithmetic::div_mod::lemma_div_multiples_vanish_fancy(
                q as int,
                b as int - 1,
                b as int,
            );
        } else {
            assert((a + b - 1) as int == (b as int) * (q as int + 1) + (rem - 1)) by (
            nonlinear_arith)
                requires
                    a as int == (b as int) * (q as int) + rem,
                    rem >= 1,
                    b >= 1,
            ;
            vstd::arithmetic::div_mod::lemma_div_multiples_vanish_fancy(
                q as int + 1,
                rem as int - 1,
                b as int,
            );
            assert(rem < b);
            if q == u64::MAX {
                assert((b as int) * (q as int) >= 2 * (q as int)) by (nonlinear_arith)
                    requires
                        b >= 2,
                        q >= 0,
                ;
                assert(false);
            }
        }
    }
    if rem != 0 {
        q + 1
    } else {
        q
    }
}

/// Every power of two is at least one.
pub proof fn lemma_pow2_pos(e: nat)
    ensures
        pow2(e) >= 1,
    decreases e,
{
    if e > 0 {
        lemma_pow2_pos((e - 1) as nat);
    }
}

/// The value of 2^63, by unfolding.
pub proof fn lemma_pow2_63()
    ensures
        pow2(63) == 0x8000_0000_0000_0000,
{
    reveal_with_fuel(pow2, 64);
}

} // verus!
