//! Inverses modulo 2^32, and the constant of Montgomery multiplication that is made of one.
use vstd::arithmetic::div_mod::lemma_fundamental_div_mod;
use vstd::arithmetic::div_mod::lemma_mod_multiples_vanish;
use vstd::arithmetic::div_mod::lemma_small_mod;
use vstd::arithmetic::power2::lemma2_to64;
use vstd::arithmetic::power2::lemma_pow2_pos;
use vstd::arithmetic::power2::lemma_pow2_unfold;
use vstd::arithmetic::power2::pow2;
use vstd::prelude::*;

verus! {

/// An odd divisor of a power of two is one.
proof fn lemma_odd_divisor_of_pow2(v: nat, r: nat, k: nat)
    requires
        v * r == pow2(k),
        r % 2 == 1,
    ensures
        r == 1,
    decreases k,
{
    lemma_pow2_pos(k);
    if k == 0 {
        lemma2_to64();
        assert(r == 1) by (nonlinear_arith)
            requires
                v * r == 1,
                r >= 1,
        ;
    } else {
        lemma_pow2_unfold(k);
        let half = pow2((k - 1) as nat);
        assert(v % 2 == 0) by {
            if v % 2 == 1 {
                let i = v / 2;
                let j = r / 2;
                assert(v * r == 2 * (2 * i * j + i + j) + 1) by (nonlinear_arith)
                    requires
                        v == 2 * i + 1,
                        r == 2 * j + 1,
                ;
                assert(v * r == 2 * half);
            }
        }
        let w = v / 2;
        assert(w * r == half) by (nonlinear_arith)
            requires
                v == 2 * w,
                v * r == 2 * half,
        ;
        lemma_odd_divisor_of_pow2(w, r, (k - 1) as nat);
    }
}

/// One step of the extended Euclidean algorithm keeps the identities that the loop of
/// [`modinv_u32`] rests on.
proof fn lemma_euclid_step(r: int, new_r: int, u: int, v: int, total: int)
    requires
        new_r >= 1,
        r >= 1,
        u >= 0,
        v >= 0,
        v * r + u * new_r == total,
    ensures
        0 <= r / new_r <= r,
        0 <= r - (r / new_r) * new_r < new_r,
        0 <= (r / new_r) * v <= v * r,
        0 <= v * r <= total,
        0 <= v <= total,
        0 <= u + (r / new_r) * v <= total,
        (u + (r / new_r) * v) * new_r + v * (r - (r / new_r) * new_r) == total,
{
    let q = r / new_r;
    lemma_fundamental_div_mod(r, new_r);
    assert(new_r * q == q * new_r) by (nonlinear_arith);
    let rest = r - q * new_r;
    assert(0 <= q <= r) by (nonlinear_arith)
        requires
            q == r / new_r,
            r >= 1,
            new_r >= 1,
    ;
    assert(0 <= q * v <= v * r) by (nonlinear_arith)
        requires
            0 <= q <= r,
            v >= 0,
    ;
    assert(u * new_r >= 0) by (nonlinear_arith)
        requires
            u >= 0,
            new_r >= 1,
    ;
    assert(v <= v * r) by (nonlinear_arith)
        requires
            v >= 0,
            r >= 1,
    ;
    assert((u + q * v) * new_r + v * rest == v * r + u * new_r) by (nonlinear_arith)
        requires
            rest == r - q * new_r,
    ;
    assert(v * rest >= 0) by (nonlinear_arith)
        requires
            v >= 0,
            rest >= 0,
    ;
    assert(u + q * v <= (u + q * v) * new_r) by (nonlinear_arith)
        requires
            u + q * v >= 0,
            new_r >= 1,
    ;
}

/// Computes the inverse of `a` modulo 2^32, which exists if and only if `a` is odd.
pub fn modinv_u32(a: u32) -> (inv: Option<u32>)
    ensures
        match inv {
            Some(t) => a % 2 == 1 && (a * t) % 0x1_0000_0000 == 1,
            None => a % 2 == 0,
        },
{
    let modulus: i64 = 0x1_0000_0000;
    let mut r: i64 = modulus;
    let mut new_r: i64 = a as i64;
    let mut t: i64 = 0;
    let mut new_t: i64 = 1;
    // r == s * modulus + t * a, and the same with the new values; the signs of t and new_t
    // (and of s and new_s) differ, and `sign` is that of new_t.
    let ghost mut s: int = 1;
    let ghost mut new_s: int = 0;
    let ghost mut sign: int = 1;
    while new_r != 0
        invariant
            modulus == 0x1_0000_0000,
            1 <= r <= modulus,
            0 <= new_r <= modulus,
            sign == 1 || sign == -1,
            0 <= -sign * t <= modulus,
            0 <= sign * new_t <= modulus,
            0 <= sign * s,
            0 <= -sign * new_s,
            (sign * new_t) * r + (-sign * t) * new_r == modulus,
            (-sign * new_s) * r + (sign * s) * new_r == a,
            r == s * modulus + t * a,
            new_r == new_s * modulus + new_t * a,
        decreases new_r,
    {
        let quotient: i64 = r / new_r;
        proof {
            lemma_euclid_step(r as int, new_r as int, -sign * t, sign * new_t, modulus as int);
            lemma_euclid_step(r as int, new_r as int, sign * s, -sign * new_s, a as int);
        }
        assert(-0x1_0000_0000 <= quotient * new_t <= 0x1_0000_0000) by (nonlinear_arith)
            requires
                sign == 1 || sign == -1,
                0 <= quotient * (sign * new_t) <= 0x1_0000_0000,
        ;
        assert(-0x1_0000_0000 <= t <= 0x1_0000_0000) by (nonlinear_arith)
            requires
                sign == 1 || sign == -1,
                0 <= -sign * t <= 0x1_0000_0000,
        ;
        assert(0 <= quotient * new_r <= r);
        let temp_t: i64 = t - quotient * new_t;
        let temp_r: i64 = r - quotient * new_r;
        proof {
            let temp_s: int = s - quotient * new_s;
            assert(sign * new_t == -(-sign) * new_t);
            assert((-sign) * temp_t == -sign * t + quotient * (sign * new_t)) by (nonlinear_arith)
                requires
                    temp_t == t - quotient * new_t,
            ;
            assert(-(-sign) * temp_s == sign * s + quotient * (-sign * new_s)) by (nonlinear_arith)
                requires
                    temp_s == s - quotient * new_s,
            ;
            assert(temp_r == temp_s * modulus + temp_t * a) by (nonlinear_arith)
                requires
                    temp_r == r - quotient * new_r,
                    temp_t == t - quotient * new_t,
                    temp_s == s - quotient * new_s,
                    r == s * modulus + t * a,
                    new_r == new_s * modulus + new_t * a,
            ;
            s = new_s;
            new_s = temp_s;
            sign = -sign;
        }
        t = new_t;
        new_t = temp_t;
        r = new_r;
        new_r = temp_r;
    }
    proof {
        let v = (sign * new_t) as nat;
        assert((-sign * t) * 0 == 0);
        assert((sign * s) * 0 == 0);
        assert(v * (r as nat) == pow2(32)) by {
            lemma2_to64();
        }
        if r > 1 {
            if r % 2 == 1 {
                lemma_odd_divisor_of_pow2(v, r as nat, 32);
            }
            let x = -sign * new_s;
            let h = r / 2;
            assert(a == 2 * (x * h)) by (nonlinear_arith)
                requires
                    a == x * r,
                    r == 2 * h,
            ;
        }
    }
    if r > 1 {
        return None;
    }
    proof {
        let total: int = 0x1_0000_0000;
        assert(t * a == total * (-s) + 1) by (nonlinear_arith)
            requires
                1 == s * total + t * a,
        ;
        lemma_mod_multiples_vanish(-s, 1, total);
        assert((t * a) % total == 1);
        assert((t + total) * a == total * a + t * a) by (nonlinear_arith);
        lemma_mod_multiples_vanish(a as int, t * a, total);
        assert(((t + total) * a) % total == 1);
        assert(-total <= t <= total) by (nonlinear_arith)
            requires
                sign == 1 || sign == -1,
                0 <= -sign * t <= total,
        ;
        if t == total || t == -total {
            assert((total * a) % total == 0) by {
                lemma_mod_multiples_vanish(a as int, 0, total);
            }
            assert(-total * a == total * (-a)) by (nonlinear_arith);
            assert((total * (-a)) % total == 0) by {
                lemma_mod_multiples_vanish(-a, 0, total);
            }
        }
        if a % 2 == 0 {
            let h = a as int / 2;
            assert(s * total + t * a == 2 * (s * 0x8000_0000 + t * h)) by (nonlinear_arith)
                requires
                    total == 2 * 0x8000_0000,
                    a == 2 * h,
            ;
        }
        assert(t * a == a * t) by (nonlinear_arith);
        assert((t + total) * a == a * (t + total)) by (nonlinear_arith);
    }
    if t < 0 {
        t = t + modulus;
    }
    Some(t as u32)
}

/// `m_prime` is the Montgomery constant of the modulus `n`: minus its inverse modulo 2^32.
pub open spec fn is_m_prime(m_prime: u32, n: nat) -> bool {
    (m_prime * n + 1) % 0x1_0000_0000 == 0
}

/// The Montgomery constant of an odd modulus.
pub open spec fn m_prime_of(n: nat) -> u32 {
    choose|m_prime: u32| is_m_prime(m_prime, n)
}

/// An odd number has an inverse modulo each power of two.
proof fn lemma_inverse_exists(n: nat, k: nat) -> (x: nat)
    requires
        n % 2 == 1,
        k >= 1,
    ensures
        x < pow2(k),
        (n * x) % pow2(k) == 1,
    decreases k,
{
    lemma2_to64();
    if k == 1 {
        assert(n * 1 == n);
        1
    } else {
        let half = pow2((k - 1) as nat) as int;
        let whole = pow2(k) as int;
        let x = lemma_inverse_exists(n, (k - 1) as nat);
        lemma_pow2_pos((k - 1) as nat);
        lemma_pow2_unfold(k);
        lemma_fundamental_div_mod((n * x) as int, half);
        let q = (n * x) as int / half;
        if q % 2 == 0 {
            let j = q / 2;
            assert(n * x == whole * j + 1) by (nonlinear_arith)
                requires
                    n * x == half * q + 1,
                    q == 2 * j,
                    whole == 2 * half,
            ;
            lemma_mod_multiples_vanish(j, 1, whole);
            lemma_small_mod(1, whole as nat);
            x
        } else {
            let y = (x + half) as nat;
            let j = (q + n) / 2;
            assert(n * y == whole * j + 1) by (nonlinear_arith)
                requires
                    n * x == half * q + 1,
                    y == x + half,
                    q + n == 2 * j,
                    whole == 2 * half,
            ;
            lemma_mod_multiples_vanish(j, 1, whole);
            lemma_small_mod(1, whole as nat);
            y
        }
    }
}

/// An odd modulus has a Montgomery constant, and [`m_prime_of`] is it.
pub proof fn lemma_m_prime_exists(n: nat)
    requires
        n % 2 == 1,
    ensures
        is_m_prime(m_prime_of(n), n),
{
    lemma2_to64();
    let total: int = 0x1_0000_0000;
    let x = lemma_inverse_exists(n, 32);
    assert(x != 0) by {
        assert(n * 0 == 0);
    }
    let m_prime = (total - x) as u32;
    lemma_fundamental_div_mod((n * x) as int, total);
    let q = (n * x) as int / total;
    let j = n - q;
    assert(m_prime * n + 1 == total * j) by (nonlinear_arith)
        requires
            n * x == total * q + 1,
            m_prime == total - x,
            j == n - q,
    ;
    lemma_mod_multiples_vanish(j, 0, total);
    lemma_small_mod(0, total as nat);
    assert(is_m_prime(m_prime, n));
}

/// The negated inverse of the low word of a modulus is its Montgomery constant.
proof fn lemma_negated_inverse(n: nat, n0: u32, inv: u32, m_prime: u32)
    requires
        n % 0x1_0000_0000 == n0,
        (n0 * inv) % 0x1_0000_0000 == 1,
        m_prime == 0x1_0000_0000 - inv,
    ensures
        is_m_prime(m_prime, n),
{
    let total: int = 0x1_0000_0000;
    let k = n as int / total;
    let j = (n0 * inv) as int / total;
    lemma_fundamental_div_mod(n as int, total);
    lemma_fundamental_div_mod(n0 * inv, total);
    let q = (total - inv) * k + n0 - j;
    assert(m_prime * n + 1 == total * q) by (nonlinear_arith)
        requires
            n == total * k + n0,
            n0 * inv == total * j + 1,
            m_prime == total - inv,
            q == (total - inv) * k + n0 - j,
    ;
    lemma_mod_multiples_vanish(q, 0, total);
    lemma_small_mod(0, total as nat);
}

/// A modulus has at most one Montgomery constant.
pub proof fn lemma_m_prime_unique(m1: u32, m2: u32, n: nat)
    requires
        is_m_prime(m1, n),
        is_m_prime(m2, n),
    ensures
        m1 == m2,
{
    let total: int = 0x1_0000_0000;
    let j1 = (m1 * n + 1) / total;
    let j2 = (m2 * n + 1) / total;
    lemma_fundamental_div_mod(m1 * n + 1, total);
    lemma_fundamental_div_mod(m2 * n + 1, total);
    let q = m2 * j1 - m1 * j2;
    assert(m2 == total * q + m1) by (nonlinear_arith)
        requires
            m1 * n + 1 == total * j1,
            m2 * n + 1 == total * j2,
            q == m2 * j1 - m1 * j2,
    ;
    lemma_mod_multiples_vanish(q, m1 as int, total);
    lemma_small_mod(m1 as nat, total as nat);
    lemma_small_mod(m2 as nat, total as nat);
}

/// Computes the Montgomery constant of a modulus whose low word is `n0`; an even modulus has
/// none.
pub fn montgomery_constant(n0: u32) -> (m_prime: Option<u32>)
    ensures
        match m_prime {
            Some(m) => n0 % 2 == 1 && forall|n: nat|
                n % 0x1_0000_0000 == n0 ==> #[trigger] is_m_prime(m, n),
            None => n0 % 2 == 0,
        },
{
    let inv: u32 = match modinv_u32(n0) {
        Some(inv) => inv,
        None => return None,
    };
    let negated: u32 = !inv;
    assert(negated == 0xffff_ffffu32 - inv) by (bit_vector)
        requires
            negated == !inv,
    ;
    let m_prime: u32 = negated.wrapping_add(1);
    proof {
        assert(inv != 0) by {
            assert(n0 * 0 == 0);
        }
        assert forall|n: nat| n % 0x1_0000_0000 == n0 implies #[trigger] is_m_prime(m_prime, n) by {
            lemma_negated_inverse(n, n0, inv, m_prime);
        }
    }
    Some(m_prime)
}

} // verus!
