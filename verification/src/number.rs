use vstd::prelude::*;
use vstd::arithmetic::div_mod::lemma_multiply_divide_lt;
use vstd::arithmetic::mul::{lemma_mul_inequality, lemma_mul_strict_inequality};
use vstd::arithmetic::power2::{
    lemma2_to64, lemma2_to64_rest, lemma_pow2_adds, lemma_pow2_strictly_increases,
    lemma_pow2_unfold, pow2,
};

verus! {

// A number of the filter language is an IEEE-754 binary64 value, held as its
// 64-bit pattern: bit 63 is the sign, bits 52..62 the biased exponent and
// bits 0..51 the fraction.
/// The weight of the sign bit of a binary64 pattern.
pub open spec fn sign_weight() -> int {
    0x8000_0000_0000_0000
}

/// The pattern of positive infinity; every pattern whose magnitude lies above it is a NaN.
pub open spec fn infinity_pattern() -> int {
    0x7ff0_0000_0000_0000
}

/// Whether the sign bit of `bits` is set.
pub open spec fn is_negative_pattern(bits: u64) -> bool {
    bits >= sign_weight()
}

/// The pattern with its sign bit cleared.
pub open spec fn magnitude_of(bits: u64) -> int {
    if is_negative_pattern(bits) {
        bits - sign_weight()
    } else {
        bits as int
    }
}

/// Whether `bits` encodes a NaN.
pub open spec fn is_nan_pattern(bits: u64) -> bool {
    magnitude_of(bits) > infinity_pattern()
}

/// For patterns that are not NaN, an integer that orders them as their values
/// are ordered: the magnitude, negated for negative values. Both zeros map to 0.
pub open spec fn order_key(bits: u64) -> int {
    if is_negative_pattern(bits) {
        -magnitude_of(bits)
    } else {
        magnitude_of(bits)
    }
}

/// `a == b` on the values that the patterns encode (false when either is a NaN).
pub open spec fn float_eq(a: u64, b: u64) -> bool {
    !is_nan_pattern(a) && !is_nan_pattern(b) && order_key(a) == order_key(b)
}

/// `a < b` on the values that the patterns encode (false when either is a NaN).
pub open spec fn float_lt(a: u64, b: u64) -> bool {
    !is_nan_pattern(a) && !is_nan_pattern(b) && order_key(a) < order_key(b)
}

/// `a <= b` on the values that the patterns encode (false when either is a NaN).
pub open spec fn float_le(a: u64, b: u64) -> bool {
    float_lt(a, b) || float_eq(a, b)
}

/// Whether `bits` encodes a NaN.
pub fn is_nan(bits: u64) -> (res: bool)
    ensures
        res == is_nan_pattern(bits),
{
    let magnitude = if bits >= 0x8000_0000_0000_0000 {
        bits - 0x8000_0000_0000_0000
    } else {
        bits
    };
    magnitude > 0x7ff0_0000_0000_0000
}

/// The order key of a pattern.
fn key_of(bits: u64) -> (res: i128)
    ensures
        res == order_key(bits),
{
    if bits >= 0x8000_0000_0000_0000 {
        0 - ((bits - 0x8000_0000_0000_0000) as i128)
    } else {
        bits as i128
    }
}

/// `a == b` on the values of two patterns.
pub fn float_equal(a: u64, b: u64) -> (res: bool)
    ensures
        res == float_eq(a, b),
{
    !is_nan(a) && !is_nan(b) && key_of(a) == key_of(b)
}

/// `a < b` on the values of two patterns.
pub fn float_less(a: u64, b: u64) -> (res: bool)
    ensures
        res == float_lt(a, b),
{
    !is_nan(a) && !is_nan(b) && key_of(a) < key_of(b)
}

/// The number of binary digits of `a` (0 for zero).
pub open spec fn bit_length(a: nat) -> nat
    decreases a,
{
    if a == 0 {
        0
    } else {
        1 + bit_length(a / 2)
    }
}

/// The significand of the binary64 value nearest to `a`, whose bit length `k`
/// exceeds 53: `a` shifted right by `k - 53` places, rounded to nearest, ties to even.
/// The result may reach 2^53, in which case the exponent grows by one.
pub open spec fn rounded_significand(a: nat, k: nat) -> nat {
    let shift = (k - 53) as nat;
    let q = a / pow2(shift);
    let r = a % pow2(shift);
    let half = pow2((shift - 1) as nat);
    if r > half || (r == half && q % 2 == 1) {
        q + 1
    } else {
        q
    }
}

/// The binary64 pattern of the nearest value to the nonzero magnitude `a`
/// (rounding to nearest, ties to even), without the sign bit.
pub open spec fn magnitude_pattern(a: nat) -> int {
    let k = bit_length(a);
    if k <= 53 {
        (k - 1 + 1023) * pow2(52) + (a * pow2((53 - k) as nat) - pow2(52))
    } else {
        let q = rounded_significand(a, k);
        if q == pow2(53) {
            ((k + 1023) * pow2(52)) as int
        } else {
            (k - 1 + 1023) * pow2(52) + (q - pow2(52))
        }
    }
}

/// The binary64 pattern of the integer `v` converted to floating point, as
/// Rust's `as` conversion does it: exact up to 2^53 in magnitude, otherwise
/// rounded to nearest, ties to even.
pub open spec fn int_as_float_bits(v: int) -> u64 {
    if v == 0 {
        0
    } else if v < 0 {
        (sign_weight() + magnitude_pattern((-v) as nat)) as u64
    } else {
        magnitude_pattern(v as nat) as u64
    }
}

/// A nonzero `a` lies between 2^(k-1) and 2^k, where `k` is its bit length.
pub proof fn lemma_bit_length_bounds(a: nat)
    requires
        a > 0,
    ensures
        bit_length(a) >= 1,
        pow2((bit_length(a) - 1) as nat) <= a < pow2(bit_length(a)),
    decreases a,
{
    lemma_pow2_unfold(bit_length(a));
    if a / 2 == 0 {
        assert(a == 1);
        assert(bit_length(0) == 0);
        lemma2_to64();
    } else {
        lemma_bit_length_bounds(a / 2);
        lemma_pow2_unfold((bit_length(a) - 1) as nat);
    }
}

/// A number below 2^n has at most n binary digits.
pub proof fn lemma_bit_length_at_most(a: nat, n: nat)
    requires
        a < pow2(n),
    ensures
        bit_length(a) <= n,
{
    if a > 0 {
        lemma_bit_length_bounds(a);
        if bit_length(a) > n {
            if (bit_length(a) - 1) as nat > n {
                lemma_pow2_strictly_increases(n, (bit_length(a) - 1) as nat);
            }
        }
    }
}

/// The pattern of a nonzero magnitude up to 2^53 lies in the band of its bit length.
proof fn lemma_small_pattern(a: nat)
    requires
        1 <= a <= pow2(53),
    ensures
        bit_length(a) <= 54,
        (bit_length(a) + 1022) * pow2(52) <= magnitude_pattern(a) < (bit_length(a) + 1023) * pow2(
            52,
        ),
{
    lemma2_to64();
    lemma2_to64_rest();
    lemma_bit_length_bounds(a);
    let k = bit_length(a);
    if a < pow2(53) {
        lemma_bit_length_at_most(a, 53);
        let scale = pow2((53 - k) as nat);
        lemma_pow2_adds((k - 1) as nat, (53 - k) as nat);
        lemma_pow2_adds(k, (53 - k) as nat);
        assert(((k - 1) as nat + (53 - k) as nat) as nat == 52);
        assert((k + (53 - k) as nat) as nat == 53);
        lemma_mul_inequality(pow2((k - 1) as nat) as int, a as int, scale as int);
        lemma_mul_strict_inequality(a as int, pow2(k) as int, scale as int);
    } else {
        assert(a == pow2(53));
        if k < 54 {
            lemma_pow2_strictly_increases(k, 53);
            if k < 53 {
                lemma_pow2_strictly_increases(k, 53);
            }
        }
        if k > 54 {
            lemma_pow2_strictly_increases(53, (k - 1) as nat);
        }
        assert(k == 54);
        assert(rounded_significand(a, k) == pow2(52)) by {
            assert(pow2(1) == 2);
            assert(pow2(0) == 1);
            assert(a / 2 == pow2(52));
            assert(a % 2 == 0);
        }
    }
}

/// On magnitudes up to 2^53 the pattern grows strictly with the magnitude.
proof fn lemma_pattern_increases(a: nat, b: nat)
    requires
        1 <= a < b <= pow2(53),
    ensures
        magnitude_pattern(a) < magnitude_pattern(b),
{
    lemma_small_pattern(a);
    lemma_small_pattern(b);
    lemma_bit_length_bounds(a);
    lemma_bit_length_bounds(b);
    let ka = bit_length(a);
    let kb = bit_length(b);
    if ka > kb {
        if (ka - 1) as nat > kb {
            lemma_pow2_strictly_increases(kb, (ka - 1) as nat);
        }
    }
    if ka == kb {
        lemma2_to64();
        lemma2_to64_rest();
        if b == pow2(53) {
            lemma_bit_length_at_most(a, 53);
            if kb <= 53 {
                lemma_bit_length_at_most(b, 53);
                lemma_small_pattern(b);
            }
        }
        if kb <= 53 {
            lemma_bit_length_at_most(a, 53);
            if b < pow2(53) {
                lemma_mul_strict_inequality(a as int, b as int, pow2((53 - ka) as nat) as int);
            } else {
                if ka < 54 {
                    lemma_pow2_strictly_increases(kb, 53);
                }
            }
        }
    } else {
        assert((ka + 1023) * pow2(52) <= (kb + 1022) * pow2(52)) by (nonlinear_arith)
            requires
                ka < kb,
        ;
    }
}

/// The order key of the pattern of an integer up to 2^53 in magnitude: no NaN, and its
/// key is the integer's sign times the pattern of its magnitude.
proof fn lemma_small_int_key(v: int)
    requires
        -pow2(53) <= v <= pow2(53),
    ensures
        !is_nan_pattern(int_as_float_bits(v)),
        v == 0 ==> order_key(int_as_float_bits(v)) == 0,
        v > 0 ==> order_key(int_as_float_bits(v)) == magnitude_pattern(v as nat),
        v < 0 ==> order_key(int_as_float_bits(v)) == -magnitude_pattern((-v) as nat),
        v != 0 ==> magnitude_pattern(if v < 0 {
            (-v) as nat
        } else {
            v as nat
        }) > 0,
{
    lemma2_to64();
    lemma2_to64_rest();
    if v != 0 {
        let a: nat = if v < 0 {
            (-v) as nat
        } else {
            v as nat
        };
        lemma_small_pattern(a);
        assert((bit_length(a) + 1023) * pow2(52) <= 1077 * pow2(52)) by (nonlinear_arith)
            requires
                bit_length(a) <= 54,
        ;
        assert((bit_length(a) + 1022) * pow2(52) >= 1023 * pow2(52)) by (nonlinear_arith)
            requires
                bit_length(a) >= 1,
        ;
        lemma_bit_length_bounds(a);
    }
}

/// Integers up to 2^53 in magnitude convert to floating point exactly: as floating-point
/// values they compare as the integers do.
pub proof fn law_small_integers_compare_exactly(a: int, b: int)
    requires
        -pow2(53) <= a <= pow2(53),
        -pow2(53) <= b <= pow2(53),
    ensures
        float_eq(int_as_float_bits(a), int_as_float_bits(b)) == (a == b),
        float_lt(int_as_float_bits(a), int_as_float_bits(b)) == (a < b),
{
    lemma_small_int_key(a);
    lemma_small_int_key(b);
    if 0 < a < b {
        lemma_pattern_increases(a as nat, b as nat);
    } else if a < b < 0 {
        lemma_pattern_increases((-b) as nat, (-a) as nat);
    } else if 0 < b < a {
        lemma_pattern_increases(b as nat, a as nat);
    } else if b < a < 0 {
        lemma_pattern_increases((-a) as nat, (-b) as nat);
    }
}

/// The pattern of every magnitude of an `i64` fits below the sign bit, so that the
/// conversion of an `i64` is the sign bit (for negative integers) plus that pattern.
pub proof fn lemma_int_as_float_bits_exact(v: int)
    requires
        -0x8000_0000_0000_0000 <= v <= 0x7fff_ffff_ffff_ffff,
    ensures
        v > 0 ==> int_as_float_bits(v) as int == magnitude_pattern(v as nat),
        v < 0 ==> int_as_float_bits(v) as int == sign_weight() + magnitude_pattern((-v) as nat),
        v != 0 ==> 0 <= magnitude_pattern(if v < 0 {
            (-v) as nat
        } else {
            v as nat
        }) < sign_weight(),
{
    if v != 0 {
        let a: nat = if v < 0 {
            (-v) as nat
        } else {
            v as nat
        };
        lemma2_to64();
        lemma2_to64_rest();
        lemma_bit_length_bounds(a);
        lemma_bit_length_at_most(a, 64);
        let k = bit_length(a);
        if k <= 53 {
            let scale = pow2((53 - k) as nat);
            lemma_pow2_adds((k - 1) as nat, (53 - k) as nat);
            lemma_pow2_adds(k, (53 - k) as nat);
            assert(((k - 1) as nat + (53 - k) as nat) as nat == 52);
            assert((k + (53 - k) as nat) as nat == 53);
            lemma_mul_inequality(pow2((k - 1) as nat) as int, a as int, scale as int);
            lemma_mul_strict_inequality(a as int, pow2(k) as int, scale as int);
        } else {
            let shift = (k - 53) as nat;
            lemma_pow2_adds(53, shift);
            assert((53 + shift) as nat == k);
            lemma_pow2_strictly_increases(0, shift);
            lemma_multiply_divide_lt(a as int, pow2(shift) as int, pow2(53) as int);
            assert(pow2(shift) * pow2(53) == pow2(53) * pow2(shift)) by (nonlinear_arith);
        }
        assert((k + 1023) * pow2(52) <= 1087 * pow2(52)) by (nonlinear_arith)
            requires
                k <= 64,
        ;
        assert((k + 1022) * pow2(52) >= pow2(52)) by (nonlinear_arith)
            requires
                k >= 1,
        ;
    }
}

/// 2^e, computed exactly.
pub fn pow2_u128(e: u64) -> (res: u128)
    requires
        e <= 120,
    ensures
        res == pow2(e as nat),
{
    let mut res: u128 = 1;
    let mut i: u64 = 0;
    proof {
        lemma2_to64();
    }
    while i < e
        invariant
            i <= e <= 120,
            res == pow2(i as nat),
        decreases e - i,
    {
        proof {
            lemma_pow2_unfold((i + 1) as nat);
            lemma_pow2_strictly_increases((i + 1) as nat, 121);
            lemma_pow2_adds(64, 57);
            lemma2_to64();
            assert(pow2(57) <= pow2(64)) by {
                lemma_pow2_strictly_increases(57, 64);
            }
        }
        res = res * 2;
        i = i + 1;
    }
    res
}

/// The binary64 pattern of `v as f64`, computed with integer arithmetic.
pub fn int_to_float_bits(v: i64) -> (bits: u64)
    ensures
        bits == int_as_float_bits(v as int),
{
    if v == 0 {
        return 0;
    }
    let negative = v < 0;
    let a: u64 = if negative {
        (0i128 - (v as i128)) as u64
    } else {
        v as u64
    };
    proof {
        lemma2_to64();
        lemma2_to64_rest();
        lemma_bit_length_at_most(a as nat, 64);
    }
    let mut k: u64 = 0;
    let mut t: u64 = a;
    while t > 0
        invariant
            bit_length(a as nat) == k + bit_length(t as nat),
            bit_length(a as nat) <= 64,
        decreases t,
    {
        t = t / 2;
        k = k + 1;
    }
    proof {
        lemma_bit_length_bounds(a as nat);
    }
    let p52: u128 = 0x10_0000_0000_0000;
    let magnitude: u128 = if k <= 53 {
        let scale = pow2_u128(53 - k);
        proof {
            if 53 - k < 52 {
                lemma_pow2_strictly_increases((53 - k) as nat, 52);
            }
            assert((a as int) * (scale as int) <= 0xffff_ffff_ffff_ffff * 0x10_0000_0000_0000)
                by (nonlinear_arith)
                requires
                    a <= 0xffff_ffff_ffff_ffffu64,
                    scale <= 0x10_0000_0000_0000u128,
            ;
        }
        (k as u128 + 1022) * p52 + (a as u128) * scale - p52
    } else {
        let shift = k - 53;
        let p = pow2_u128(shift);
        let q = (a as u128) / p;
        let r = (a as u128) % p;
        let half = pow2_u128(shift - 1);
        let q2 = if r > half || (r == half && q % 2 == 1) {
            q + 1
        } else {
            q
        };
        assert(q2 == rounded_significand(a as nat, k as nat));
        if q2 == 0x20_0000_0000_0000 {
            (k as u128 + 1023) * p52
        } else {
            (k as u128 + 1022) * p52 + q2 - p52
        }
    };
    assert(magnitude == magnitude_pattern(a as nat));
    let sign: u128 = if negative {
        0x8000_0000_0000_0000
    } else {
        0
    };
    (sign + magnitude) as u64
}

/// Whether a number of nom's float grammar may start with `c`: a digit, a sign, a point,
/// or the first letter of `nan`, `inf` or `infinity` in either case.
pub open spec fn may_start_number(c: char) -> bool {
    ('0' <= c && c <= '9') || c == '+' || c == '-' || c == '.' || c == 'n' || c == 'N' || c == 'i'
        || c == 'I'
}

/// Whether a number may start with `c`.
pub fn starts_number(c: char) -> (res: bool)
    ensures
        res == may_start_number(c),
{
    ('0' <= c && c <= '9') || c == '+' || c == '-' || c == '.' || c == 'n' || c == 'N' || c == 'i'
        || c == 'I'
}

/// What `nom::number::complete::double` reports on the text `rest`: `Ok((left, bits, shown))`
/// when it reads a number, with `left` characters of `rest` after the number, `bits` the binary64
/// pattern of the value and `shown` the value as Rust's `Display` prints it; `Err(true)` when it
/// fails beyond recovery (an exponent marker without digits); `Err(false)` when `rest` does not
/// start with a number.
pub uninterp spec fn float_scan(rest: Seq<char>) -> Result<(nat, u64, Seq<char>), bool>;

/// Reads a floating-point number at `pos` with `nom::number::complete::double`.
/// Trusted: the result is `float_scan` of the text from `pos` on, and a number read covers at
/// least one character (nom's float grammar needs a digit, `nan` or `inf`).
#[verifier::external_body]
pub(crate) fn scan_float(s: &[char], pos: usize) -> (res: Result<(usize, u64, String), bool>)
    requires
        pos <= s.len(),
    ensures
        match res {
            Ok((left, bits, shown)) => {
                &&& float_scan(s@.skip(pos as int)) == Ok::<(nat, u64, Seq<char>), bool>(
                    (left as nat, bits, shown@),
                )
                &&& left < s.len() - pos
            },
            Err(failure) => float_scan(s@.skip(pos as int)) == Err::<
                (nat, u64, Seq<char>),
                bool,
            >(failure),
        },
{
    let text: String = s[pos..].iter().collect();
    match nom::number::complete::double::<&str, nom::error::Error<&str>>(text.as_str()) {
        Ok((tail, value)) => Ok((tail.chars().count(), value.to_bits(), format!("{}", value))),
        Err(nom::Err::Failure(_)) => Err(true),
        Err(_) => Err(false),
    }
}

} // verus!
