//! Human-readable file sizes (`512 B`, `1.5 KB`, `2.00 MB`, `1.25 GB`).
//!
//! A size of a kilobyte or more is shown as the binary floating-point
//! quotient `size as f64 / unit as f64`, printed with two decimals (one for
//! KB), rounded to nearest with ties to even. All of that is computed here
//! exactly in integers: the conversion of the size to a 53-bit mantissa, the
//! division by a power of two (which is exact), and the decimal rounding.
use vstd::prelude::*;
use vstd::arithmetic::power2::{lemma_pow2_pos, lemma_pow2_unfold, pow2};
use crate::text::{decimal, fixed_digits, push_decimal, push_fixed_digits, push_char};

verus! {

pub const KB: u64 = 1024;

pub const MB: u64 = 1048576;

pub const GB: u64 = 1073741824;

/// The number of binary digits of `n` (zero for zero).
pub open spec fn bit_len(n: nat) -> nat
    decreases n,
{
    if n == 0 {
        0
    } else {
        1 + bit_len(n / 2)
    }
}

/// `num / den` rounded to the nearest integer, ties to the even one.
pub open spec fn round_half_even(num: nat, den: nat) -> nat {
    let q = num / den;
    let r = num % den;
    if r * 2 > den || (r * 2 == den && q % 2 == 1) {
        q + 1
    } else {
        q
    }
}

/// The value that `n as f64` holds: `n` rounded to 53 significant bits,
/// ties to even.
pub open spec fn f64_value(n: nat) -> nat {
    if bit_len(n) <= 53 {
        n
    } else {
        let unit = pow2((bit_len(n) - 53) as nat);
        round_half_even(n, unit) * unit
    }
}

/// `size as f64 / unit as f64` printed with `digits` decimals, where
/// `scale == 10^digits`.
pub open spec fn scaled_text(size: u64, unit: nat, digits: nat, scale: nat) -> Seq<char> {
    let n = round_half_even(f64_value(size as nat) * scale, unit);
    decimal(n / scale) + seq!['.'] + fixed_digits(n % scale, digits)
}

/// The text shown for a file of `size` bytes.
pub open spec fn spec_format_file_size(size: u64) -> Seq<char> {
    if size >= GB {
        scaled_text(size, GB as nat, 2, 100) + seq![' ', 'G', 'B']
    } else if size >= MB {
        scaled_text(size, MB as nat, 2, 100) + seq![' ', 'M', 'B']
    } else if size >= KB {
        scaled_text(size, KB as nat, 1, 10) + seq![' ', 'K', 'B']
    } else {
        decimal(size as nat) + seq![' ', 'B']
    }
}

proof fn lemma_bit_len_bound(n: nat, k: nat)
    requires
        n < pow2(k),
    ensures
        bit_len(n) <= k,
    decreases k,
{
    if n > 0 {
        if k == 0 {
            assert(pow2(0) == 1) by {
                vstd::arithmetic::power2::lemma2_to64();
            }
        } else {
            lemma_pow2_unfold(k);
            lemma_bit_len_bound(n / 2, (k - 1) as nat);
        }
    }
}

fn bit_length(n: u64) -> (r: u32)
    ensures
        r as nat == bit_len(n as nat),
        r <= 64,
{
    let mut m = n;
    let mut b: u32 = 0;
    proof {
        assert(pow2(64) == 0x1_0000_0000_0000_0000) by {
            vstd::arithmetic::power2::lemma2_to64();
        }
        lemma_bit_len_bound(n as nat, 64);
    }
    while m > 0
        invariant
            bit_len(n as nat) == b + bit_len(m as nat),
            bit_len(n as nat) <= 64,
        decreases m,
    {
        m = m / 2;
        b = b + 1;
    }
    b
}

fn power_of_two(e: u32) -> (r: u128)
    requires
        e <= 64,
    ensures
        r as nat == pow2(e as nat),
        r <= 0x1_0000_0000_0000_0000,
{
    let mut p: u128 = 1;
    let mut i: u32 = 0;
    proof {
        vstd::arithmetic::power2::lemma2_to64();
    }
    while i < e
        invariant
            i <= e <= 64,
            p as nat == pow2(i as nat),
            pow2(i as nat) <= pow2(64),
            pow2(64) == 0x1_0000_0000_0000_0000,
        decreases e - i,
    {
        proof {
            lemma_pow2_unfold((i + 1) as nat);
            if i + 1 < 64 {
                vstd::arithmetic::power2::lemma_pow2_strictly_increases((i + 1) as nat, 64);
            }
        }
        p = p * 2;
        i = i + 1;
    }
    p
}

/// `num / den` rounded to nearest, ties to even.
fn rounded_quotient(num: u128, den: u128) -> (r: u128)
    requires
        0 < den <= 0x1_0000_0000_0000_0000,
        num <= 0x1_0000_0000_0000_0000_0000_0000,
    ensures
        r as nat == round_half_even(num as nat, den as nat),
{
    let q = num / den;
    let rem = num % den;
    assert(q <= num) by (nonlinear_arith)
        requires
            den > 0,
            q == num / den,
    ;
    if rem * 2 > den || (rem * 2 == den && q % 2 == 1) {
        q + 1
    } else {
        q
    }
}

/// The value of `n as f64`, as an integer.
fn f64_of(n: u64) -> (r: u128)
    ensures
        r as nat == f64_value(n as nat),
        r <= 0x1_0000_0000_0000_0000,
{
    let bits = bit_length(n);
    if bits <= 53 {
        return n as u128;
    }
    let unit = power_of_two(bits - 53);
    proof {
        lemma_pow2_pos((bits - 53) as nat);
    }
    let q = rounded_quotient(n as u128, unit);
    proof {
        // n < 2^bits, so the rounded quotient is at most 2^53.
        lemma_pow2_pos(bits as nat);
        lemma_below_bit_len(n as nat);
        vstd::arithmetic::power2::lemma_pow2_adds((bits - 53) as nat, 53);
        lemma_rounded_bound(n as nat, unit as nat, pow2(53));
        assert(pow2(53) == 0x20_0000_0000_0000) by {
            vstd::arithmetic::power2::lemma2_to64_rest();
        }
        assert(pow2(bits as nat) <= pow2(64)) by {
            if bits < 64 {
                vstd::arithmetic::power2::lemma_pow2_strictly_increases(bits as nat, 64);
            }
        }
        assert(pow2(64) == 0x1_0000_0000_0000_0000) by {
            vstd::arithmetic::power2::lemma2_to64();
        }
        assert(q * unit <= pow2(53) * unit) by (nonlinear_arith)
            requires
                q <= pow2(53),
                unit > 0,
        ;
    }
    q * unit
}

proof fn lemma_below_bit_len(n: nat)
    ensures
        n < pow2(bit_len(n)),
    decreases n,
{
    if n == 0 {
        vstd::arithmetic::power2::lemma2_to64();
    } else {
        lemma_below_bit_len(n / 2);
        lemma_pow2_unfold(bit_len(n));
    }
}

/// Rounding `n / unit` to nearest stays at or below `bound` when
/// `n < bound * unit`.
proof fn lemma_rounded_bound(n: nat, unit: nat, bound: nat)
    requires
        unit > 0,
        n < bound * unit,
    ensures
        round_half_even(n, unit) <= bound,
{
    let q = n / unit;
    assert(q < bound) by (nonlinear_arith)
        requires
            unit > 0,
            n < bound * unit,
            q == n / unit,
    ;
}

/// Appends the scaled value: integer part, a point, and `digits` decimals.
fn push_scaled(s: &mut String, size: u64, unit: u128, digits: u32, scale: u128)
    requires
        0 < unit <= 0x1_0000_0000_0000_0000,
        1 <= scale <= 100,
    ensures
        final(s)@ == old(s)@ + scaled_text(size, unit as nat, digits as nat, scale as nat),
{
    let value = f64_of(size);
    assert(value * scale <= 0x1_0000_0000_0000_0000 * 100) by (nonlinear_arith)
        requires
            value <= 0x1_0000_0000_0000_0000,
            scale <= 100,
    ;
    let n = rounded_quotient(value * scale, unit);
    push_decimal(s, n / scale);
    push_char(s, '.');
    push_fixed_digits(s, n % scale, digits);
    assert(final(s)@ =~= old(s)@ + scaled_text(size, unit as nat, digits as nat, scale as nat));
}

/// The size of a file as the download page shows it.
pub fn format_file_size(size: u64) -> (r: String)
    ensures
        r@ == spec_format_file_size(size),
{
    let mut s = String::new();
    if size >= GB {
        push_scaled(&mut s, size, GB as u128, 2, 100);
        push_char(&mut s, ' ');
        push_char(&mut s, 'G');
        push_char(&mut s, 'B');
    } else if size >= MB {
        push_scaled(&mut s, size, MB as u128, 2, 100);
        push_char(&mut s, ' ');
        push_char(&mut s, 'M');
        push_char(&mut s, 'B');
    } else if size >= KB {
        push_scaled(&mut s, size, KB as u128, 1, 10);
        push_char(&mut s, ' ');
        push_char(&mut s, 'K');
        push_char(&mut s, 'B');
    } else {
        push_decimal(&mut s, size as u128);
        push_char(&mut s, ' ');
        push_char(&mut s, 'B');
    }
    assert(s@ =~= spec_format_file_size(size));
    s
}

} // verus!
