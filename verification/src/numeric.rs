//! Numeric safety helpers shared by every conversion strategy.
//!
//! Floating-point source values are carried as their IEEE 754 bit patterns,
//! so that NaN detection and the exact widening of a 32-bit pattern to the
//! 64-bit pattern are plain integer functions, stated and proved here.
//! Decimal rendering of integers, used to turn map keys into object keys,
//! lives here as well.
use vstd::prelude::*;
use vstd::arithmetic::power2::*;
use vstd::string::StringExecFns;

verus! {

/// 2^63, the place value of an IEEE 754 binary64 sign bit.
pub const B64_SIGN: u64 = 0x8000_0000_0000_0000;

/// 2^52, the place value of the lowest binary64 exponent bit.
pub const B64_EXP: u64 = 0x10_0000_0000_0000;

/// 2^31, the place value of an IEEE 754 binary32 sign bit.
pub const B32_SIGN: u32 = 0x8000_0000;

/// 2^23, the place value of the lowest binary32 exponent bit.
pub const B32_EXP: u32 = 0x80_0000;

/// 2^29, the shift that aligns a binary32 fraction inside a binary64 one.
pub const B29: u64 = 0x2000_0000;

/// Exponent field of a binary32 bit pattern.
pub open spec fn f32_exp(b: u32) -> int {
    (b as int) / (B32_EXP as int) % 0x100
}

/// Fraction field of a binary32 bit pattern.
pub open spec fn f32_frac(b: u32) -> int {
    (b as int) % (B32_EXP as int)
}

/// Sign field of a binary32 bit pattern.
pub open spec fn f32_sign(b: u32) -> int {
    (b as int) / (B32_SIGN as int)
}

/// A binary32 pattern encodes NaN when its exponent field is saturated and
/// its fraction field is not zero.
pub open spec fn is_nan32(b: u32) -> bool {
    f32_exp(b) == 0xff && f32_frac(b) != 0
}

/// Exponent field of a binary64 bit pattern.
pub open spec fn f64_exp(b: u64) -> int {
    (b as int) / (B64_EXP as int) % 0x800
}

/// Fraction field of a binary64 bit pattern.
pub open spec fn f64_frac(b: u64) -> int {
    (b as int) % (B64_EXP as int)
}

/// A binary64 pattern encodes NaN when its exponent field is saturated and
/// its fraction field is not zero.
pub open spec fn is_nan64(b: u64) -> bool {
    f64_exp(b) == 0x7ff && f64_frac(b) != 0
}

/// Position of the highest set bit: for m >= 1, pow2(msb(m)) <= m < pow2(msb(m) + 1).
pub open spec fn msb(m: nat) -> nat
    decreases m,
{
    if m < 2 {
        0
    } else {
        1 + msb(m / 2)
    }
}

proof fn lemma_msb_bounds(m: nat)
    requires
        m >= 1,
    ensures
        pow2(msb(m)) <= m < pow2(msb(m) + 1),
    decreases m,
{
    if m < 2 {
        lemma2_to64();
    } else {
        lemma_msb_bounds(m / 2);
        lemma_pow2_unfold(msb(m) + 1);
        lemma_pow2_unfold(msb(m));
    }
}

proof fn lemma_msb_unique(m: nat, k: nat)
    requires
        pow2(k) <= m < pow2(k + 1),
    ensures
        msb(m) == k,
{
    lemma_pow2_pos(k);
    lemma_msb_bounds(m);
    if msb(m) < k {
        lemma_pow2_strictly_increases(msb(m) + 1, k);
    }
    if msb(m) > k {
        lemma_pow2_strictly_increases(k + 1, msb(m));
    }
}

/// The exact binary64 bit pattern of the binary32 value with bit pattern `b`.
///
/// Widening a binary32 value to binary64 is exact: the sign is kept, a
/// saturated exponent stays saturated, a normal exponent is rebiased from
/// 127 to 1023, and a subnormal fraction is normalized, its highest set bit
/// becoming the implicit leading one.
pub open spec fn spec_widen32(b: u32) -> u64 {
    let s = f32_sign(b);
    let e = f32_exp(b);
    let m = f32_frac(b);
    if e == 0xff {
        (s * (B64_SIGN as int) + 0x7ff * (B64_EXP as int) + m * (B29 as int)) as u64
    } else if e == 0 && m == 0 {
        (s * (B64_SIGN as int)) as u64
    } else if e == 0 {
        let k = msb(m as nat);
        (s * (B64_SIGN as int) + (874 + k) * (B64_EXP as int) + (m - pow2(k)) * pow2(
            (52 - k) as nat,
        )) as u64
    } else {
        (s * (B64_SIGN as int) + (e + 896) * (B64_EXP as int) + m * (B29 as int)) as u64
    }
}

/// Exact power of two as a machine word.
fn pow2_u64(e: u64) -> (r: u64)
    requires
        e < 64,
    ensures
        r == pow2(e as nat),
{
    let mut i: u64 = 0;
    let mut r: u64 = 1;
    proof {
        lemma2_to64();
        lemma2_to64_rest();
    }
    while i < e
        invariant
            i <= e < 64,
            r == pow2(i as nat),
        decreases e - i,
    {
        proof {
            lemma2_to64();
            lemma2_to64_rest();
            lemma_pow2_unfold(i as nat + 1);
            if i as nat + 1 < 63 {
                lemma_pow2_strictly_increases(i as nat + 1, 63);
            }
        }
        r = r * 2;
        i = i + 1;
    }
    r
}

/// Detects a NaN binary32 bit pattern.
pub fn nan32(b: u32) -> (r: bool)
    ensures
        r == is_nan32(b),
{
    let e = b / B32_EXP % 0x100;
    let m = b % B32_EXP;
    e == 0xff && m != 0
}

/// Detects a NaN binary64 bit pattern.
pub fn nan64(b: u64) -> (r: bool)
    ensures
        r == is_nan64(b),
{
    let e = b / B64_EXP % 0x800;
    let m = b % B64_EXP;
    e == 0x7ff && m != 0
}

/// Widens a binary32 bit pattern to the bit pattern of the same value as a
/// binary64 number.
pub fn widen32(b: u32) -> (r: u64)
    ensures
        r == spec_widen32(b),
{
    let s: u64 = (b / B32_SIGN) as u64;
    let e: u64 = (b / B32_EXP % 0x100) as u64;
    let m: u64 = (b % B32_EXP) as u64;
    if e == 0xff {
        s * B64_SIGN + 0x7ff * B64_EXP + m * B29
    } else if e == 0 && m == 0 {
        s * B64_SIGN
    } else if e == 0 {
        let mut k: u64 = 0;
        let mut p: u64 = 1;
        proof {
            lemma2_to64();
        }
        while m >= 2 * p
            invariant
                1 <= m < B32_EXP,
                p == pow2(k as nat),
                p <= m,
                k < 23,
            decreases 23 - k,
        {
            proof {
                lemma_pow2_unfold(k as nat + 1);
                if k + 1 >= 23 {
                    lemma2_to64();
                    lemma_pow2_strictly_increases(23, k as nat + 1);
                }
            }
            p = 2 * p;
            k = k + 1;
        }
        proof {
            lemma_pow2_unfold(k as nat + 1);
            lemma_msb_unique(m as nat, k as nat);
        }
        let q = pow2_u64(52 - k);
        proof {
            lemma_pow2_adds(k as nat, (52 - k) as nat);
            lemma2_to64_rest();
            assert((m - p) * q <= (p - 1) * q) by (nonlinear_arith)
                requires
                    m < 2 * p,
                    q >= 1,
                ;
            assert((p - 1) * q == p * q - q) by (nonlinear_arith);
            assert(p * q == pow2(52)) by {
                lemma_pow2_adds(k as nat, (52 - k) as nat);
            }
        }
        s * B64_SIGN + (874 + k) * B64_EXP + (m - p) * q
    } else {
        s * B64_SIGN + (e + 896) * B64_EXP + m * B29
    }
}

/// Recovers the three fields from a binary64 pattern assembled out of them.
pub proof fn lemma_f64_fields(s: int, e: int, f: int)
    requires
        0 <= s < 2,
        0 <= e < 0x800,
        0 <= f < B64_EXP as int,
    ensures
        f64_exp((s * (B64_SIGN as int) + e * (B64_EXP as int) + f) as u64) == e,
        f64_frac((s * (B64_SIGN as int) + e * (B64_EXP as int) + f) as u64) == f,
{
    let p52 = B64_EXP as int;
    let b = s * (B64_SIGN as int) + e * (B64_EXP as int) + f;
    assert(0 <= b < 0x1_0000_0000_0000_0000) by (nonlinear_arith)
        requires
            0 <= s < 2,
            0 <= e < 0x800,
            0 <= f < 0x10_0000_0000_0000,
            b == s * 0x8000_0000_0000_0000 + e * 0x10_0000_0000_0000 + f,
        ;
    assert(b as u64 == b);
    assert(b / p52 == s * 0x800 + e && b % p52 == f) by (nonlinear_arith)
        requires
            0 <= s < 2,
            0 <= e < 0x800,
            0 <= f < 0x10_0000_0000_0000,
            p52 == 0x10_0000_0000_0000,
            b == s * 0x8000_0000_0000_0000 + e * 0x10_0000_0000_0000 + f,
        ;
    assert((s * 0x800 + e) % 0x800 == e) by (nonlinear_arith)
        requires
            0 <= s < 2,
            0 <= e < 0x800,
        ;
}

/// A non-NaN binary32 pattern widens to a non-NaN binary64 pattern.
pub proof fn lemma_widen32_not_nan(b: u32)
    requires
        !is_nan32(b),
    ensures
        !is_nan64(spec_widen32(b)),
{
    let s = f32_sign(b);
    let e = f32_exp(b);
    let m = f32_frac(b);
    assert(0 <= s < 2) by (nonlinear_arith)
        requires
            s == (b as int) / 0x8000_0000,
            b < 0x1_0000_0000,
        ;
    if e == 0xff {
        assert(m == 0);
        lemma_f64_fields(s, 0x7ff, 0);
    } else if e == 0 && m == 0 {
        lemma_f64_fields(s, 0, 0);
    } else if e == 0 {
        let k = msb(m as nat);
        lemma_msb_bounds(m as nat);
        if k >= 23 {
            lemma2_to64();
            lemma_pow2_strictly_increases(23, k);
        }
        let f = (m - pow2(k)) * pow2((52 - k) as nat);
        lemma_pow2_adds(k, (52 - k) as nat);
        lemma2_to64_rest();
        lemma_pow2_unfold(k + 1);
        lemma_pow2_pos(k);
        lemma_pow2_pos((52 - k) as nat);
        assert(0 <= f < 0x10_0000_0000_0000) by (nonlinear_arith)
            requires
                pow2(k) <= m < 2 * pow2(k),
                f == (m - pow2(k)) * pow2((52 - k) as nat),
                pow2(k) * pow2((52 - k) as nat) == 0x10_0000_0000_0000,
                pow2(k) >= 1,
                pow2((52 - k) as nat) >= 1,
            ;
        lemma_f64_fields(s, 874 + k as int, f);
    } else {
        lemma_f64_fields(s, e + 896, m * (B29 as int));
    }
}

/// Decimal digit as a character.
pub open spec fn spec_digit(d: int) -> char {
    if d == 0 {
        '0'
    } else if d == 1 {
        '1'
    } else if d == 2 {
        '2'
    } else if d == 3 {
        '3'
    } else if d == 4 {
        '4'
    } else if d == 5 {
        '5'
    } else if d == 6 {
        '6'
    } else if d == 7 {
        '7'
    } else if d == 8 {
        '8'
    } else {
        '9'
    }
}

/// Decimal rendering of a non-negative integer, most significant digit first.
pub open spec fn spec_u64_string(n: int) -> Seq<char>
    decreases n,
{
    if n <= 9 {
        seq![spec_digit(n)]
    } else {
        spec_u64_string(n / 10).push(spec_digit(n % 10))
    }
}

/// Decimal rendering of a signed integer: a minus sign before the digits of
/// the magnitude when the value is negative.
pub open spec fn spec_i64_string(n: int) -> Seq<char> {
    if n >= 0 {
        spec_u64_string(n)
    } else {
        seq!['-'].add(spec_u64_string(-n))
    }
}

fn digit_str(d: u64) -> (r: &'static str)
    requires
        d <= 9,
    ensures
        r@ == seq![spec_digit(d as int)],
{
    proof {
        reveal_strlit("0");
        reveal_strlit("1");
        reveal_strlit("2");
        reveal_strlit("3");
        reveal_strlit("4");
        reveal_strlit("5");
        reveal_strlit("6");
        reveal_strlit("7");
        reveal_strlit("8");
        reveal_strlit("9");
    }
    match d {
        0 => "0",
        1 => "1",
        2 => "2",
        3 => "3",
        4 => "4",
        5 => "5",
        6 => "6",
        7 => "7",
        8 => "8",
        _ => "9",
    }
}

/// Renders an unsigned integer in decimal.
pub fn u64_string(n: u64) -> (r: String)
    ensures
        r@ == spec_u64_string(n as int),
    decreases n,
{
    if n <= 9 {
        digit_str(n).to_owned()
    } else {
        let mut s = u64_string(n / 10);
        s.append(digit_str(n % 10));
        s
    }
}

/// Renders a signed integer in decimal.
pub fn i64_string(n: i64) -> (r: String)
    ensures
        r@ == spec_i64_string(n as int),
{
    if n >= 0 {
        u64_string(n as u64)
    } else {
        let mag: u64 = ((-(n + 1)) as u64) + 1;
        proof {
            reveal_strlit("-");
        }
        let mut s = "-".to_owned();
        let digits = u64_string(mag);
        s.append(digits.as_str());
        s
    }
}

} // verus!
