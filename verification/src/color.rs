//! Colours as they are written to an image: each channel a whole number from
//! 0 to 255, in decimal.

use vstd::prelude::*;
use vstd::arithmetic::div_mod::{lemma_basic_div, lemma_div_multiples_vanish_quotient};
use vstd::arithmetic::power2::{
    lemma2_to64,
    lemma2_to64_rest,
    lemma_pow2_adds,
    lemma_pow2_pos,
    lemma_pow2_strictly_increases,
    pow2,
};
use vstd::bits::lemma_u64_shr_is_div;
use crate::math::{clamp, clamped, Span};
use crate::scalar::{Scalar, HIDDEN_BIT};
use crate::vec3::Color;

verus! {

/// The encoding of 0.999: the brightest that a channel gets.
pub const CHANNEL_TOP_BITS: u64 = 0x3FEF_F7CE_D916_872B;

/// The range that a channel is held to: from 0 to 0.999.
pub open spec fn channel_range() -> Span {
    Span { start: Scalar::zero(), end: Scalar { bits: CHANNEL_TOP_BITS } }
}

/// The whole number that stands for a channel's brightness `c`: `c` held to
/// the channel range, times 256, rounded down. Since a double is
/// `size_of(..)` steps of two to the -1074th, that is the size times 256,
/// divided by two to the 1074th. A NaN gives 0.
pub open spec fn channel_of(c: Scalar) -> nat {
    let k = clamped(c, channel_range());
    if k.nan() || k.negative() {
        0
    } else {
        (Scalar::size_of(k.magnitude()) * 256) / pow2(1074)
    }
}

/// The decimal digit for `d`, which is below ten.
pub open spec fn digit(d: nat) -> char {
    if d == 0 {
        '0'
    } else if d == 1 {
        '1'
    } else if d == 2 {
        '2'
    } else if d == 3 {
        '3'
    } else if d == 4 {
        '4'
    } else if d == 5 {
        '5'
    } else if d == 6 {
        '6'
    } else if d == 7 {
        '7'
    } else if d == 8 {
        '8'
    } else {
        '9'
    }
}

/// `n` in decimal, without leading zeros.
pub open spec fn decimal(n: nat) -> Seq<char>
    decreases n,
{
    if n < 10 {
        seq![digit(n)]
    } else {
        decimal(n / 10).push(digit(n % 10))
    }
}

/// A pixel's line in a plain-text image: its three channels in decimal, a
/// blank between each two.
pub open spec fn ppm_line(r: nat, g: nat, b: nat) -> Seq<char> {
    decimal(r) + seq![' '] + decimal(g) + seq![' '] + decimal(b)
}

/// A number below two to the -8th gives channel 0.
proof fn lemma_dim(m: nat)
    requires
        m / (HIDDEN_BIT as nat) <= 1014,
    ensures
        (Scalar::size_of(m) * 256) / pow2(1074) == 0,
{
    let h = HIDDEN_BIT as int;
    let e = (m as int) / h;
    let f = (m as int) % h;
    lemma2_to64();
    lemma2_to64_rest();
    lemma_pow2_pos(1074);
    let size = Scalar::size_of(m) as int;
    if e == 0 {
        lemma_pow2_strictly_increases(60, 1074);
        assert(size * 256 < pow2(1074));
    } else {
        let p = (e - 1) as nat;
        lemma_pow2_pos(p);
        lemma_pow2_adds(p, 61);
        if p + 61 < 1074 {
            lemma_pow2_strictly_increases(p + 61, 1074);
        }
        assert(size * 256 < pow2(p) * pow2(61)) by (nonlinear_arith)
            requires
                size == (h + f) * pow2(p),
                0 <= f < h,
                h == 0x0010_0000_0000_0000,
                pow2(p) > 0,
                pow2(61) == 0x2000_0000_0000_0000,
        ;
    }
    lemma_basic_div(size * 256, pow2(1074) as int);
}

/// A significand shifted right by what its exponent leaves of 1067 is the
/// number times 256, rounded down.
proof fn lemma_bright(m: nat, shift: nat)
    requires
        1015 <= m / (HIDDEN_BIT as nat) <= 1067,
        shift == 1067 - m / (HIDDEN_BIT as nat),
    ensures
        (Scalar::size_of(m) * 256) / pow2(1074) == ((HIDDEN_BIT + m % (HIDDEN_BIT as nat)) as nat)
            / pow2(shift),
{
    let h = HIDDEN_BIT as int;
    let e = (m as int) / h;
    let f = (m as int) % h;
    let p = (e - 1) as nat;
    let sig = h + f;
    lemma2_to64();
    lemma_pow2_pos(p);
    lemma_pow2_pos(shift);
    lemma_pow2_adds(p, 8);
    lemma_pow2_adds(p + 8, shift);
    let x = pow2(p) * 256;
    let size = Scalar::size_of(m) as int;
    assert(size * 256 == x * sig) by (nonlinear_arith)
        requires
            size == sig * pow2(p),
            x == pow2(p) * 256,
    ;
    assert(pow2(1074) == x * pow2(shift));
    assert(x > 0) by (nonlinear_arith)
        requires
            x == pow2(p) * 256,
            pow2(p) > 0,
    ;
    lemma_div_multiples_vanish_quotient(x as int, sig, pow2(shift) as int);
}

/// A channel read off the bits: it is 0 for a NaN, for a brightness that is
/// not above zero, and for one with an exponent field up to 1014, which is
/// below two to the -8th. For a brighter one it is the leading bits of the
/// significand: the significand divided by two to the power of what the
/// exponent field leaves of 1067. And it is always below 256.
pub proof fn lemma_channel_bits(c: Scalar)
    ensures
        channel_of(c) < 256,
        ({
            let k = clamped(c, channel_range());
            channel_of(c) == if k.nan() || k.negative() || k.exponent() <= 1014 {
                0
            } else {
                ((HIDDEN_BIT + k.fraction()) as nat) / pow2((1067 - k.exponent()) as nat)
            }
        }),
{
    let k = clamped(c, channel_range());
    if !k.nan() && !k.negative() {
        let m = k.magnitude();
        assert(m <= CHANNEL_TOP_BITS);
        let e = m / (HIDDEN_BIT as nat);
        if e <= 1014 {
            lemma_dim(m);
        } else {
            let shift = (1067 - e) as nat;
            lemma_bright(m, shift);
            lemma2_to64_rest();
            lemma_pow2_strictly_increases(44, shift);
            let sig = (HIDDEN_BIT + m % (HIDDEN_BIT as nat)) as int;
            let d = pow2(shift) as int;
            assert(sig / d < 256) by (nonlinear_arith)
                requires
                    0 <= sig < 0x0020_0000_0000_0000,
                    d >= 0x2000_0000_0000,
            ;
        }
    }
}

/// The whole number, from 0 to 255, that stands for a channel's brightness.
pub fn channel(c: Scalar) -> (r: u32)
    ensures
        r == channel_of(c),
        r <= 255,
{
    let range: Span = Span::new(Scalar::zero(), Scalar::from_bits(CHANNEL_TOP_BITS));
    let k: Scalar = clamp(c, range);
    if k.is_nan() || k.is_sign_negative() {
        return 0;
    }
    let m: u64 = k.to_bits();
    assert(m == k.magnitude());
    assert(m <= CHANNEL_TOP_BITS);
    let e: u64 = m >> 52;
    let f: u64 = m & 0x000F_FFFF_FFFF_FFFF;
    assert(m >> 52 == m / 0x0010_0000_0000_0000) by (bit_vector);
    assert(m & 0x000F_FFFF_FFFF_FFFF == m % 0x0010_0000_0000_0000) by (bit_vector);
    if e <= 1014 {
        proof {
            lemma_dim(m as nat);
        }
        return 0;
    }
    let sig: u64 = f + HIDDEN_BIT;
    let shift: u64 = 1067 - e;
    proof {
        lemma_bright(m as nat, shift as nat);
        lemma_u64_shr_is_div(sig, shift);
        assert(sig >> shift < 256) by (bit_vector)
            requires
                sig < 0x0020_0000_0000_0000,
                45 <= shift <= 52,
        ;
    }
    (sig >> shift) as u32
}

fn digit_text(d: u32) -> (r: &'static str)
    requires
        d < 10,
    ensures
        r@ == seq![digit(d as nat)],
{
    proof {
        reveal_strlit("0");
        reveal_strlit("1");
        reveal_strlit("2");
        reveal_strlit("3");
        reveal_strlit("4");
        reveal_strlit("5");
        reveal_strlit("6");
        reveal_strlit("7");
        reveal_strlit("8");
        reveal_strlit("9");
    }
    let r: &'static str = if d == 0 {
        "0"
    } else if d == 1 {
        "1"
    } else if d == 2 {
        "2"
    } else if d == 3 {
        "3"
    } else if d == 4 {
        "4"
    } else if d == 5 {
        "5"
    } else if d == 6 {
        "6"
    } else if d == 7 {
        "7"
    } else if d == 8 {
        "8"
    } else {
        "9"
    };
    assert(r@ =~= seq![digit(d as nat)]);
    r
}

fn push_decimal(s: &mut String, n: u32)
    ensures
        final(s)@ == old(s)@ + decimal(n as nat),
    decreases n,
{
    if n >= 10 {
        push_decimal(s, n / 10);
    }
    s.append(digit_text(n % 10));
    assert(final(s)@ =~= old(s)@ + decimal(n as nat));
}

/// A colour's line in a plain-text image. The colour's channels are the
/// brightnesses to show: averaged over the samples and corrected for gamma.
pub fn as_ppm(color: Color) -> (s: String)
    ensures
        s@ == ppm_line(channel_of(color.0), channel_of(color.1), channel_of(color.2)),
{
    let r: u32 = channel(color.x());
    let g: u32 = channel(color.y());
    let b: u32 = channel(color.z());
    let mut s: String = String::new();
    proof {
        reveal_strlit(" ");
    }
    push_decimal(&mut s, r);
    s.append(" ");
    push_decimal(&mut s, g);
    s.append(" ");
    push_decimal(&mut s, b);
    assert(s@ =~= ppm_line(r as nat, g as nat, b as nat));
    s
}

} // verus!
