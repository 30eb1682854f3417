use vstd::prelude::*;

use vstd::arithmetic::div_mod::{
    lemma_div_multiples_vanish, lemma_mod_multiples_basic, lemma_multiply_divide_lt,
};
use vstd::arithmetic::mul::{
    lemma_mul_inequality, lemma_mul_strict_inequality, lemma_mul_strictly_positive,
};
use vstd::arithmetic::power2::{
    lemma2_to64, lemma2_to64_rest, lemma_pow2_adds, lemma_pow2_pos, lemma_pow2_strictly_increases,
    lemma_pow2_unfold, pow2,
};

verus! {

/// The exponent of the highest power of two not above `n` (0 for `n <= 1`).
pub open spec fn floor_log2(n: nat) -> nat
    decreases n,
{
    if n <= 1 {
        0
    } else {
        1 + floor_log2(n / 2)
    }
}

/// `n / d` rounded to the nearest integer, ties going to the even quotient.
pub open spec fn div_round_even(n: nat, d: nat) -> nat
    recommends
        d > 0,
{
    let q = n / d;
    let r = n % d;
    if 2 * r < d {
        q
    } else if 2 * r > d {
        q + 1
    } else if q % 2 == 0 {
        q
    } else {
        q + 1
    }
}

/// The IEEE-754 binary32 word that the unsigned integer `n` converts to,
/// rounding to nearest with ties to even: a zero sign bit, then the biased
/// exponent, then the 23-bit significand field. For `n < 2^24` the value is
/// represented exactly; above that the significand is rounded, and a
/// significand that rounds up to `2^24` carries into the exponent through
/// the same formula.
pub open spec fn binary32_bits_of(n: nat) -> nat {
    if n == 0 {
        0
    } else {
        let e = floor_log2(n);
        if e <= 23 {
            (126 + e) * pow2(23) + n * pow2((23 - e) as nat)
        } else {
            (126 + e) * pow2(23) + div_round_even(n, pow2((e - 23) as nat))
        }
    }
}

/// `floor_log2` brackets its argument between consecutive powers of two.
pub proof fn lemma_floor_log2(n: nat)
    requires
        n >= 1,
    ensures
        pow2(floor_log2(n)) <= n < pow2(floor_log2(n) + 1),
    decreases n,
{
    lemma2_to64();
    if n >= 2 {
        lemma_floor_log2(n / 2);
        let f = floor_log2(n);
        lemma_pow2_unfold(f);
        lemma_pow2_unfold(f + 1);
    }
}

/// On the exactly representable range the encoding is strictly monotone —
/// so two distinct integers up to 2^24 always get distinct words, and the
/// stored word determines the integer exactly.
pub proof fn lemma_binary32_strictly_monotone_small(m: nat, n: nat)
    requires
        m < n,
        n <= pow2(24),
    ensures
        binary32_bits_of(m) < binary32_bits_of(n),
{
    lemma2_to64();
    lemma_floor_log2(n);
    let en = floor_log2(n);
    if en > 24 {
        lemma_pow2_strictly_increases(24, en);
    }
    // The encoding of n is (126 + en) * 2^23 plus a significand of at
    // least 2^23.
    let n_low: nat = if en <= 23 {
        (n * pow2((23 - en) as nat)) as nat
    } else {
        div_round_even(n, pow2((en - 23) as nat))
    };
    if en <= 23 {
        lemma_pow2_adds(en, (23 - en) as nat);
        lemma_mul_inequality(pow2(en) as int, n as int, pow2((23 - en) as nat) as int);
        assert(n_low >= pow2(23));
    } else {
        // en == 24 forces n == 2^24, whose rounded significand is 2^23.
        assert(n == pow2(24));
        lemma_pow2_adds(1, 23);
        assert(n == 2 * pow2(23));
        lemma_div_multiples_vanish(pow2(23) as int, 2);
        lemma_mod_multiples_basic(pow2(23) as int, 2);
        assert(n_low == pow2(23));
    }
    assert(binary32_bits_of(n) == (126 + en) * pow2(23) + n_low);
    if m == 0 {
        lemma_mul_strictly_positive((126 + en) as int, pow2(23) as int);
    } else {
        lemma_floor_log2(m);
        let em = floor_log2(m);
        // m < n <= 2^24 keeps m in the exact branch: em <= 23,
        if em >= 24 {
            if em > 24 {
                lemma_pow2_strictly_increases(24, em);
            }
            assert(pow2(em) >= pow2(24));
            assert(false);
        }
        // and the exponents are ordered as the integers are: em <= en.
        if em > en {
            if em > en + 1 {
                lemma_pow2_strictly_increases(en + 1, em);
            }
            assert(pow2(em) >= pow2(en + 1));
            assert(false);
        }
        if em == en {
            // Same exponent: the significands compare as the integers do.
            lemma_mul_strict_inequality(m as int, n as int, pow2((23 - em) as nat) as int);
        } else {
            // Smaller exponent: m's whole encoding sits below (128 + em) * 2^23,
            // which is no more than what n's larger exponent alone gives.
            lemma_pow2_adds((em + 1) as nat, (23 - em) as nat);
            lemma_mul_strict_inequality(
                m as int,
                pow2((em + 1) as nat) as int,
                pow2((23 - em) as nat) as int,
            );
            assert((em + 1) + ((23 - em) as nat) == 24);
            assert(m * pow2((23 - em) as nat) < 2 * pow2(23));
            assert(binary32_bits_of(m) < (128 + em) * pow2(23)) by {
                assert((126 + em) * pow2(23) + 2 * pow2(23) == (128 + em) * pow2(23))
                    by (nonlinear_arith);
            };
            assert((128 + em) * pow2(23) <= (127 + en) * pow2(23)) by {
                lemma_mul_inequality((128 + em) as int, (127 + en) as int, pow2(23) as int);
            };
            assert((127 + en) * pow2(23) <= binary32_bits_of(n)) by {
                assert((126 + en) * pow2(23) + pow2(23) == (127 + en) * pow2(23))
                    by (nonlinear_arith);
            };
        }
    }
}

/// 2^k as a machine word.
fn pow2_u64(k: u64) -> (r: u64)
    requires
        k < 64,
    ensures
        r as nat == pow2(k as nat),
{
    let mut i: u64 = 0;
    let mut r: u64 = 1;
    proof {
        lemma2_to64();
    }
    while i < k
        invariant
            i <= k,
            k < 64,
            r as nat == pow2(i as nat),
        decreases k - i,
    {
        proof {
            lemma_pow2_unfold((i + 1) as nat);
            lemma_pow2_strictly_increases(i as nat, 63);
            lemma2_to64_rest();
        }
        r = r * 2;
        i = i + 1;
    }
    r
}

/// The binary32 word for `n`, computed with integer arithmetic alone.
pub fn binary32_bits_from_u32(n: u32) -> (r: u32)
    ensures
        r as nat == binary32_bits_of(n as nat),
{
    if n == 0 {
        return 0;
    }
    let ghost f = floor_log2(n as nat);
    proof {
        lemma_floor_log2(n as nat);
        lemma2_to64();
        assert(f <= 31) by {
            if f > 32 {
                lemma_pow2_strictly_increases(32, f);
            }
        };
    }
    let mut e: u32 = 0;
    let mut m: u32 = n;
    while m >= 2
        invariant
            1 <= m,
            e + floor_log2(m as nat) == f,
            f <= 31,
        decreases m,
    {
        m = m / 2;
        e = e + 1;
    }
    proof {
        lemma_pow2_pos((23 - f) as nat);
        lemma_pow2_pos((f - 23) as nat);
    }
    if e <= 23 {
        let factor: u64 = pow2_u64((23 - e) as u64);
        proof {
            if 0 < f && f < 23 {
                lemma_pow2_strictly_increases((23 - f) as nat, 23);
            }
            lemma_pow2_adds((f + 1) as nat, (23 - f) as nat);
            lemma_mul_strict_inequality(
                n as int,
                pow2((f + 1) as nat) as int,
                pow2((23 - f) as nat) as int,
            );
            assert((f + 1) + ((23 - f) as nat) == 24);
        }
        let hi: u64 = (126 + e as u64) * 0x80_0000;
        let lo: u64 = (n as u64) * factor;
        let r64: u64 = hi + lo;
        r64 as u32
    } else {
        let d: u64 = pow2_u64((e - 23) as u64);
        let n64: u64 = n as u64;
        let q: u64 = n64 / d;
        let rem: u64 = n64 % d;
        proof {
            lemma_pow2_adds((f - 23) as nat, 24);
            assert(((f - 23) as nat) + 24 == f + 1);
            lemma_multiply_divide_lt(n as int, d as int, pow2(24) as int);
        }
        let sig: u64 = if 2 * rem < d {
            q
        } else if 2 * rem > d {
            q + 1
        } else if q % 2 == 0 {
            q
        } else {
            q + 1
        };
        let r64: u64 = (126 + e as u64) * 0x80_0000 + sig;
        r64 as u32
    }
}

} // verus!
