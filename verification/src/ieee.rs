//! Conversion of IEEE 754 binary32 and binary64 samples to 16-bit samples, computed
//! exactly on the bit patterns with integer arithmetic.
use vstd::arithmetic::power2::pow2;
use vstd::prelude::*;

verus! {

/// Number of binary digits of `n` (0 for 0).
pub open spec fn bit_length(n: nat) -> nat
    decreases n,
{
    if n == 0 {
        0
    } else {
        1 + bit_length(n / 2)
    }
}

/// `n` rounded to `keep` significant binary digits, halfway cases to an even last
/// digit, as IEEE 754 rounds to nearest.
pub open spec fn round_to_bits(n: nat, keep: nat) -> nat {
    if bit_length(n) <= keep {
        n
    } else {
        let unit = pow2((bit_length(n) - keep) as nat);
        let q = n / unit;
        let r = n % unit;
        if 2 * r > unit || (2 * r == unit && q % 2 == 1) {
            (q + 1) * unit
        } else {
            q * unit
        }
    }
}

/// The integer part of `|x * 32767|` for `|x| = m * 2^e`, where the product is rounded to
/// the 53 significant bits of a binary64.
pub open spec fn scaled_magnitude_floor(m: nat, e: int) -> nat {
    let r = round_to_bits(m * 32767, 53);
    if e >= 0 {
        r * pow2(e as nat)
    } else {
        r / pow2((-e) as nat)
    }
}

/// The 16-bit sample of a finite value `±m * 2^e`: the value times 32767, clamped to
/// `-32768..=32767` and truncated toward zero.
pub open spec fn clamped_sample(negative: bool, m: nat, e: int) -> int {
    let f = scaled_magnitude_floor(m, e);
    if negative {
        if f < 32768 {
            -f
        } else {
            -32768
        }
    } else {
        if f < 32767 {
            f as int
        } else {
            32767
        }
    }
}

/// The 16-bit sample of the binary32 value with these bits: NaN gives 0, infinities clamp.
pub open spec fn f32_sample_value(bits: u32) -> int {
    let negative = bits >= 0x8000_0000;
    let exp = (bits as nat / 0x80_0000) % 0x100;
    let frac = bits as nat % 0x80_0000;
    if exp == 0xff {
        if frac != 0 {
            0
        } else if negative {
            -32768
        } else {
            32767
        }
    } else if exp == 0 {
        clamped_sample(negative, frac, -149)
    } else {
        clamped_sample(negative, frac + 0x80_0000, exp - 150)
    }
}

/// The 16-bit sample of the binary64 value with these bits: NaN gives 0, infinities clamp.
pub open spec fn f64_sample_value(bits: u64) -> int {
    let negative = bits >= 0x8000_0000_0000_0000;
    let exp = (bits as nat / 0x10_0000_0000_0000) % 0x800;
    let frac = bits as nat % 0x10_0000_0000_0000;
    if exp == 0x7ff {
        if frac != 0 {
            0
        } else if negative {
            -32768
        } else {
            32767
        }
    } else if exp == 0 {
        clamped_sample(negative, frac, -1074)
    } else {
        clamped_sample(negative, frac + 0x10_0000_0000_0000, exp - 1075)
    }
}

proof fn lemma_bit_length_spans(n: nat)
    ensures
        n < pow2(bit_length(n)),
        n > 0 ==> pow2((bit_length(n) - 1) as nat) <= n,
        n > 0 ==> bit_length(n) >= 1,
    decreases n,
{
    vstd::arithmetic::power2::lemma2_to64();
    if n > 0 {
        lemma_bit_length_spans(n / 2);
        vstd::arithmetic::power2::lemma_pow2_unfold(bit_length(n));
        if n / 2 > 0 {
            vstd::arithmetic::power2::lemma_pow2_unfold((bit_length(n) - 1) as nat);
        }
    }
}

proof fn lemma_bit_length_exact(n: nat, k: nat)
    requires
        k >= 1,
        pow2((k - 1) as nat) <= n < pow2(k),
    ensures
        bit_length(n) == k,
{
    vstd::arithmetic::power2::lemma_pow2_pos((k - 1) as nat);
    lemma_bit_length_spans(n);
    let b = bit_length(n);
    if b > k {
        if b - 1 > k {
            vstd::arithmetic::power2::lemma_pow2_strictly_increases(k, (b - 1) as nat);
        }
    } else if b < k {
        if b < k - 1 {
            vstd::arithmetic::power2::lemma_pow2_strictly_increases(b, (k - 1) as nat);
        }
    }
}

proof fn lemma_bit_length_at_most(n: nat, k: nat)
    requires
        n < pow2(k),
    ensures
        bit_length(n) <= k,
{
    lemma_bit_length_spans(n);
    let b = bit_length(n);
    if b > k {
        if b - 1 > k {
            vstd::arithmetic::power2::lemma_pow2_strictly_increases(k, (b - 1) as nat);
        }
    }
}

proof fn lemma_round_at_most_double(n: nat, keep: nat)
    requires
        keep >= 1,
    ensures
        round_to_bits(n, keep) <= 2 * n,
{
    let b = bit_length(n);
    if b > keep {
        lemma_bit_length_spans(n);
        let unit = pow2((b - keep) as nat);
        vstd::arithmetic::power2::lemma_pow2_pos((b - keep) as nat);
        if b - keep < b - 1 {
            vstd::arithmetic::power2::lemma_pow2_strictly_increases(
                (b - keep) as nat,
                (b - 1) as nat,
            );
        }
        let q = n / unit;
        vstd::arithmetic::div_mod::lemma_fundamental_div_mod(n as int, unit as int);
        assert((q + 1) * unit == q * unit + unit) by (nonlinear_arith);
    }
}

/// Powers of two beyond 64 that the binary64 conversion uses.
proof fn lemma_large_powers()
    ensures
        pow2(66) == 0x4_0000_0000_0000_0000,
        pow2(67) == 0x8_0000_0000_0000_0000,
        pow2(68) == 0x10_0000_0000_0000_0000,
        pow2(69) == 0x20_0000_0000_0000_0000,
{
    vstd::arithmetic::power2::lemma2_to64();
    vstd::arithmetic::power2::lemma_pow2_adds(64, 2);
    vstd::arithmetic::power2::lemma_pow2_adds(64, 3);
    vstd::arithmetic::power2::lemma_pow2_adds(64, 4);
    vstd::arithmetic::power2::lemma_pow2_adds(64, 5);
}

/// Clamps a magnitude to a signed 16-bit sample.
fn clamp_magnitude(negative: bool, f: u128) -> (r: i16)
    ensures
        r == (if negative {
            if f < 32768 {
                -(f as int)
            } else {
                -32768
            }
        } else {
            if f < 32767 {
                f as int
            } else {
                32767
            }
        }),
{
    if negative {
        if f < 32768 {
            -(f as i32) as i16
        } else {
            -32768
        }
    } else {
        if f < 32767 {
            f as i16
        } else {
            32767
        }
    }
}

/// Converts a binary32 sample, given by its bits, to 16 bits as `value * 32767` clamped
/// and truncated toward zero.
pub fn f32_bits_to_sample(bits: u32) -> (r: i16)
    ensures
        r == f32_sample_value(bits),
{
    let negative = bits >= 0x8000_0000;
    let exp = (bits / 0x80_0000) % 0x100;
    let frac = bits % 0x80_0000;
    if exp == 0xff {
        return if frac != 0 {
            0
        } else if negative {
            -32768
        } else {
            32767
        };
    }
    let m: u64 = if exp == 0 {
        frac as u64
    } else {
        frac as u64 + 0x80_0000
    };
    let n: u64 = m * 32767;
    proof {
        vstd::arithmetic::power2::lemma2_to64();
        vstd::arithmetic::power2::lemma2_to64_rest();
        assert(n < 0x80_0000_0000);
        lemma_bit_length_at_most(n as nat, 39);
        assert(round_to_bits(n as nat, 53) == n);
    }
    if exp >= 150 {
        proof {
            let e = exp - 150;
            vstd::arithmetic::power2::lemma_pow2_pos(e as nat);
            assert(n * pow2(e as nat) >= n) by (nonlinear_arith)
                requires
                    pow2(e as nat) >= 1,
            ;
        }
        return clamp_magnitude(negative, 32768);
    }
    let k: u64 = if exp == 0 {
        149
    } else {
        150 - exp as u64
    };
    let f: u64 = if k >= 64 {
        proof {
            vstd::arithmetic::power2::lemma_pow2_strictly_increases(39, k as nat);
            vstd::arithmetic::div_mod::lemma_basic_div(n as int, pow2(k as nat) as int);
        }
        0
    } else {
        proof {
            vstd::bits::lemma_u64_shr_is_div(n, k);
        }
        n >> k
    };
    clamp_magnitude(negative, f as u128)
}

/// Converts a binary64 sample, given by its bits, to 16 bits as `value * 32767` rounded
/// to binary64, clamped, and truncated toward zero.
pub fn f64_bits_to_sample(bits: u64) -> (r: i16)
    ensures
        r == f64_sample_value(bits),
{
    let negative = bits >= 0x8000_0000_0000_0000;
    let exp = (bits / 0x10_0000_0000_0000) % 0x800;
    let frac = bits % 0x10_0000_0000_0000;
    if exp == 0x7ff {
        return if frac != 0 {
            0
        } else if negative {
            -32768
        } else {
            32767
        };
    }
    proof {
        vstd::arithmetic::power2::lemma2_to64();
        lemma_large_powers();
    }
    if exp == 0 {
        proof {
            let n = frac as nat * 32767;
            lemma_round_at_most_double(n, 53);
            vstd::arithmetic::power2::lemma_pow2_strictly_increases(69, 1074);
            vstd::arithmetic::div_mod::lemma_basic_div(
                round_to_bits(n, 53) as int,
                pow2(1074) as int,
            );
        }
        return 0;
    }
    let m: u128 = frac as u128 + 0x10_0000_0000_0000;
    let n: u128 = m * 32767;
    let unit: u128 = if n >= 0x8_0000_0000_0000_0000 {
        32768
    } else {
        16384
    };
    proof {
        if n >= 0x8_0000_0000_0000_0000 {
            lemma_bit_length_exact(n as nat, 68);
        } else {
            lemma_bit_length_exact(n as nat, 67);
        }
        assert(unit == pow2((bit_length(n as nat) - 53) as nat));
    }
    let q = n / unit;
    let rem = n % unit;
    proof {
        vstd::arithmetic::div_mod::lemma_fundamental_div_mod(n as int, unit as int);
        assert(q * unit <= n) by (nonlinear_arith)
            requires
                n == unit * q + rem,
                rem >= 0,
        ;
        assert(q * unit >= 0x4_0000_0000_0000_0000 - 32768) by (nonlinear_arith)
            requires
                n == unit * q + rem,
                rem < unit,
                unit <= 32768,
                n >= 0x4_0000_0000_0000_0000,
        ;
        assert((q + 1) * unit == q * unit + unit) by (nonlinear_arith);
    }
    let rounded: u128 = if 2 * rem > unit || (2 * rem == unit && q % 2 == 1) {
        (q + 1) * unit
    } else {
        q * unit
    };
    proof {
        assert(rounded == round_to_bits(n as nat, 53));
        assert(rounded >= 32768);
    }
    if exp >= 1075 {
        proof {
            let e = exp - 1075;
            vstd::arithmetic::power2::lemma_pow2_pos(e as nat);
            assert(rounded * pow2(e as nat) >= rounded) by (nonlinear_arith)
                requires
                    pow2(e as nat) >= 1,
            ;
        }
        return clamp_magnitude(negative, 32768);
    }
    let k: u128 = 1075 - exp as u128;
    let f: u128 = if k >= 128 {
        proof {
            lemma_round_at_most_double(n as nat, 53);
            vstd::arithmetic::power2::lemma_pow2_strictly_increases(69, k as nat);
            vstd::arithmetic::div_mod::lemma_basic_div(rounded as int, pow2(k as nat) as int);
        }
        0
    } else {
        proof {
            vstd::bits::lemma_u128_shr_is_div(rounded, k);
        }
        rounded >> k
    };
    clamp_magnitude(negative, f)
}

} // verus!

verus! {

/// `m * 32767` is kept exactly by the rounding to 53 bits when `m < 2^24`.
proof fn lemma_small_products_round_exactly(m: nat)
    requires
        m < 0x100_0000,
    ensures
        round_to_bits(m * 32767, 53) == m * 32767,
        m * 32767 < 0x80_0000_0000,
{
    vstd::arithmetic::power2::lemma2_to64();
    vstd::arithmetic::power2::lemma2_to64_rest();
    assert(m * 32767 < 0x80_0000_0000) by (nonlinear_arith)
        requires
            m < 0x100_0000,
    ;
    lemma_bit_length_at_most(m * 32767, 53);
}

/// `pow2(k) >= pow2(j)` for `j <= k`.
proof fn lemma_pow2_monotone(j: nat, k: nat)
    requires
        j <= k,
    ensures
        pow2(j) <= pow2(k),
{
    if j < k {
        vstd::arithmetic::power2::lemma_pow2_strictly_increases(j, k);
    }
}

/// The sign bit of a binary32 pattern leaves its exponent and fraction fields alone.
proof fn lemma_sign_bit_fields(bits: u32)
    requires
        bits < 0x8000_0000,
    ensures
        ((bits + 0x8000_0000) as nat / 0x80_0000) % 0x100 == (bits as nat / 0x80_0000) % 0x100,
        (bits + 0x8000_0000) as nat % 0x80_0000 == bits as nat % 0x80_0000,
        bits as nat / 0x80_0000 < 0x100,
        (bits as nat / 0x80_0000) % 0x100 == bits as nat / 0x80_0000,
{
    let q = bits as int / 0x80_0000;
    let r = bits as int % 0x80_0000;
    vstd::arithmetic::div_mod::lemma_fundamental_div_mod(bits as int, 0x80_0000);
    vstd::arithmetic::div_mod::lemma_fundamental_div_mod_converse(
        bits + 0x8000_0000,
        0x80_0000,
        q + 0x100,
        r,
    );
    assert(q < 0x100);
    vstd::arithmetic::div_mod::lemma_fundamental_div_mod_converse(q + 0x100, 0x100, 1, q);
    vstd::arithmetic::div_mod::lemma_fundamental_div_mod_converse(q, 0x100, 0, q);
}

/// binary32 samples: flipping the sign bit negates the sample (a full-scale negative
/// value may reach -32768 where the positive one stops at 32767); any magnitude of at
/// least 1 saturates, to 32767 or to -32767 and below; any magnitude below `2^-15` (so
/// that `|x| * 32767 < 1`) gives 0; NaN gives 0 and the infinities clamp; and one half
/// gives 16383.
pub proof fn f32_sample_laws(bits: u32)
    requires
        bits < 0x8000_0000,
    ensures
        ({
            let exp = bits / 0x80_0000;
            let pos = f32_sample_value(bits);
            let neg = f32_sample_value((bits + 0x8000_0000) as u32);
            &&& exp < 0xff ==> (neg == -pos || (pos == 32767 && neg == -32768))
            &&& 127 <= exp < 0xff ==> pos == 32767 && neg <= -32767
            &&& exp < 112 ==> pos == 0 && neg == 0
            &&& exp == 0xff && bits % 0x80_0000 != 0 ==> pos == 0 && neg == 0
            &&& bits == 0x7f80_0000 ==> pos == 32767 && neg == -32768
            &&& bits == 0x3f00_0000 ==> pos == 16383 && neg == -16383
        }),
{
    vstd::arithmetic::power2::lemma2_to64();
    lemma_sign_bit_fields(bits);
    let exp = (bits as nat / 0x80_0000) % 0x100;
    let frac = bits as nat % 0x80_0000;
    if 127 <= exp < 0xff {
        let m = frac + 0x80_0000;
        let e = exp - 150;
        lemma_small_products_round_exactly(m);
        let r: int = (m * 32767) as int;
        if e >= 0 {
            vstd::arithmetic::power2::lemma_pow2_pos(e as nat);
            assert(r * pow2(e as nat) >= r) by (nonlinear_arith)
                requires
                    pow2(e as nat) >= 1,
                    r >= 0,
            ;
        } else {
            let k = (-e) as nat;
            lemma_pow2_monotone(k, 23);
            vstd::arithmetic::power2::lemma_pow2_pos(k);
            let d = pow2(k) as int;
            assert(r >= d * 32767) by (nonlinear_arith)
                requires
                    r == m * 32767,
                    m >= 0x80_0000,
                    d <= 0x80_0000,
            ;
            vstd::arithmetic::div_mod::lemma_fundamental_div_mod(r, d);
            assert(r / d >= 32767) by (nonlinear_arith)
                requires
                    r >= d * 32767,
                    r == d * (r / d) + r % d,
                    0 <= r % d < d,
            ;
        }
    }
    if exp < 112 {
        let m: nat = if exp == 0 {
            frac
        } else {
            frac + 0x80_0000
        };
        let e: int = if exp == 0 {
            -149
        } else {
            exp - 150
        };
        lemma_small_products_round_exactly(m);
        let k = (-e) as nat;
        lemma_pow2_monotone(39, k);
        vstd::arithmetic::power2::lemma2_to64_rest();
        vstd::arithmetic::div_mod::lemma_basic_div((m * 32767) as int, pow2(k) as int);
    }
    if bits == 0x3f00_0000 {
        let m: nat = 0x80_0000;
        lemma_small_products_round_exactly(m);
        assert(pow2(24) == 0x100_0000);
        assert((0x80_0000 * 32767) as int / 0x100_0000 == 16383);
    }
}

} // verus!

verus! {

/// The sign bit of a binary64 pattern leaves its exponent and fraction fields alone.
proof fn lemma_sign_bit_fields_64(bits: u64)
    requires
        bits < 0x8000_0000_0000_0000,
    ensures
        ((bits + 0x8000_0000_0000_0000) as nat / 0x10_0000_0000_0000) % 0x800 == (bits as nat
            / 0x10_0000_0000_0000) % 0x800,
        (bits + 0x8000_0000_0000_0000) as nat % 0x10_0000_0000_0000 == bits as nat
            % 0x10_0000_0000_0000,
        (bits as nat / 0x10_0000_0000_0000) % 0x800 == bits as nat / 0x10_0000_0000_0000,
{
    let d: int = 0x10_0000_0000_0000;
    let q = bits as int / d;
    let r = bits as int % d;
    vstd::arithmetic::div_mod::lemma_fundamental_div_mod(bits as int, d);
    assert(q < 0x800) by (nonlinear_arith)
        requires
            bits as int == d * q + r,
            0 <= r,
            bits < 0x8000_0000_0000_0000,
            d == 0x10_0000_0000_0000,
    ;
    vstd::arithmetic::div_mod::lemma_fundamental_div_mod_converse(
        bits + 0x8000_0000_0000_0000,
        d,
        q + 0x800,
        r,
    );
    vstd::arithmetic::div_mod::lemma_fundamental_div_mod_converse(q + 0x800, 0x800, 1, q);
    vstd::arithmetic::div_mod::lemma_fundamental_div_mod_converse(q, 0x800, 0, q);
}

/// binary64 samples: flipping the sign bit negates the sample (a full-scale negative
/// value may reach -32768 where the positive one stops at 32767); any magnitude below
/// `2^-16` gives 0; NaN gives 0 and the infinities clamp; and 1.0 gives 32767.
pub proof fn f64_sample_laws(bits: u64)
    requires
        bits < 0x8000_0000_0000_0000,
    ensures
        ({
            let exp = bits / 0x10_0000_0000_0000;
            let pos = f64_sample_value(bits);
            let neg = f64_sample_value((bits + 0x8000_0000_0000_0000) as u64);
            &&& exp < 0x7ff ==> (neg == -pos || (pos == 32767 && neg == -32768))
            &&& exp < 1007 ==> pos == 0 && neg == 0
            &&& exp == 0x7ff && bits % 0x10_0000_0000_0000 != 0 ==> pos == 0 && neg == 0
            &&& bits == 0x7ff0_0000_0000_0000 ==> pos == 32767 && neg == -32768
            &&& bits == 0x3ff0_0000_0000_0000 ==> pos == 32767 && neg == -32767
        }),
{
    lemma_sign_bit_fields_64(bits);
    let exp = (bits as nat / 0x10_0000_0000_0000) % 0x800;
    let frac = bits as nat % 0x10_0000_0000_0000;
    if exp < 1007 {
        let m: nat = if exp == 0 {
            frac
        } else {
            frac + 0x10_0000_0000_0000
        };
        let e: int = if exp == 0 {
            -1074
        } else {
            exp - 1075
        };
        let n: nat = m * 32767;
        assert(n < 0x10_0000_0000_0000_0000) by (nonlinear_arith)
            requires
                n == m * 32767,
                m < 0x20_0000_0000_0000,
        ;
        lemma_round_at_most_double(n, 53);
        lemma_large_powers();
        let k = (-e) as nat;
        lemma_pow2_monotone(69, k);
        vstd::arithmetic::div_mod::lemma_basic_div(round_to_bits(n, 53) as int, pow2(k) as int);
    }
    if bits == 0x3ff0_0000_0000_0000 {
        let n: nat = 0x10_0000_0000_0000 * 32767;
        lemma_large_powers();
        vstd::arithmetic::power2::lemma2_to64();
        vstd::arithmetic::power2::lemma2_to64_rest();
        lemma_bit_length_exact(n, 67);
        assert(pow2(14) == 0x4000);
        vstd::arithmetic::div_mod::lemma_fundamental_div_mod_converse(
            n as int,
            0x4000,
            0x40_0000_0000int * 32767,
            0,
        );
        assert(round_to_bits(n, 53) == n);
        assert(pow2(52) == 0x10_0000_0000_0000);
        vstd::arithmetic::div_mod::lemma_fundamental_div_mod_converse(
            n as int,
            0x10_0000_0000_0000,
            32767,
            0,
        );
    }
}

} // verus!
