//! Decimal rendering of exact fractions `n / d`: rounded to a fixed number
//! of places (ties to even), and in plain form without trailing zeros.

use vstd::prelude::*;
use vstd::arithmetic::div_mod::lemma_fundamental_div_mod_converse;
use crate::text::{dec, digit_char, push_char_pub, push_str, push_zeros, zeros, zpad};

verus! {

/// Ten to the power `p`.
pub open spec fn pow10(p: nat) -> nat
    decreases p,
{
    if p == 0 {
        1
    } else {
        10 * pow10((p - 1) as nat)
    }
}

/// `n / d` rounded to the nearest integer, ties to the even neighbour.
pub open spec fn round_div(n: nat, d: nat) -> nat {
    let q = n / d;
    let r = n % d;
    if 2 * r > d || (2 * r == d && q % 2 == 1) {
        q + 1
    } else {
        q
    }
}

/// The exact value `n / d` rendered with `p` decimal places, rounded half
/// to even from the exact fraction. (Rendering an `f64` quotient with
/// `{:.p}` rounds the nearest binary value instead, which can differ in the
/// last place: `1 / 80` to three places is `0.012` here and `0.013` there.)
pub open spec fn fixed_s(n: nat, d: nat, p: nat) -> Seq<char> {
    let v = round_div(n * pow10(p), d);
    if p == 0 {
        dec(v)
    } else {
        dec(v / pow10(p)) + seq!['.'] + zpad(dec(v % pow10(p)), p)
    }
}

/// The `w` digits of a fraction `f` without trailing zeros.
pub open spec fn frac_digits_s(f: nat, w: nat) -> Seq<char>
    decreases w,
{
    if w > 0 && f % 10 == 0 {
        frac_digits_s(f / 10, (w - 1) as nat)
    } else {
        zpad(dec(f), w)
    }
}

/// The value `n / d`, which `p` decimal places hold exactly, in plain form:
/// the integer part, and the exact fraction without trailing zeros when it
/// is not zero. (Up to about fifteen significant digits this is what `{}`
/// prints for the equal `f64`; past that, `{}` prints the shortest digits
/// that read back to the same binary value, which this does not.)
pub open spec fn plain_s(n: nat, d: nat, p: nat) -> Seq<char> {
    let v = n * pow10(p) / d;
    let f = v % pow10(p);
    if f == 0 {
        dec(v / pow10(p))
    } else {
        dec(v / pow10(p)) + seq!['.'] + frac_digits_s(f, p)
    }
}

proof fn lemma_pow10_pos(a: nat)
    ensures
        1 <= pow10(a),
    decreases a,
{
    if a > 0 {
        lemma_pow10_pos((a - 1) as nat);
    }
}

proof fn lemma_pow10_mono(a: nat, b: nat)
    requires
        a <= b,
    ensures
        1 <= pow10(a) <= pow10(b),
    decreases b,
{
    lemma_pow10_pos(a);
    if a < b {
        lemma_pow10_mono(a, (b - 1) as nat);
    }
}

/// The powers of ten used for rendering, evaluated.
pub proof fn lemma_pow10_values()
    ensures
        pow10(0) == 1,
        pow10(1) == 10,
        pow10(2) == 100,
        pow10(3) == 1000,
        pow10(6) == 1_000_000,
        pow10(8) == 100_000_000,
        pow10(16) == 10_000_000_000_000_000,
{
    reveal_with_fuel(pow10, 17);
}

/// Ten to the power `p`, for `p` up to 16.
pub fn pow10_u128(p: u32) -> (r: u128)
    requires
        p <= 16,
    ensures
        r == pow10(p as nat),
        1 <= r <= 10_000_000_000_000_000,
{
    proof {
        reveal_with_fuel(pow10, 17);
        lemma_pow10_mono(p as nat, 16);
    }
    let mut r: u128 = 1;
    let mut i: u32 = 0;
    while i < p
        invariant
            i <= p <= 16,
            r == pow10(i as nat),
            pow10(16) == 10_000_000_000_000_000,
        decreases p - i,
    {
        proof { lemma_pow10_mono(i as nat + 1, 16); }
        r = r * 10;
        i = i + 1;
    }
    r
}

/// Appends the decimal digits of `n`.
pub fn push_dec128(s: &mut String, n: u128)
    ensures
        final(s)@ == old(s)@ + dec(n as nat),
    decreases n,
{
    if n >= 10 {
        push_dec128(s, n / 10);
    }
    let d: u8 = (n % 10) as u8;
    push_char_pub(s, (d + 48) as char);
    proof {
        if n >= 10 {
            assert(dec(n as nat) == dec((n / 10) as nat).push(digit_char((n % 10) as nat)));
        }
    }
}

proof fn lemma_dec_len(n: nat)
    ensures
        1 <= dec(n).len() <= n + 1,
    decreases n,
{
    if n >= 10 {
        lemma_dec_len(n / 10);
        assert(dec(n).len() == dec(n / 10).len() + 1);
    }
}

/// The number of decimal digits of `n`.
pub fn dec_len(n: u128) -> (c: u128)
    ensures
        c == dec(n as nat).len(),
    decreases n,
{
    if n >= 10 {
        let c = dec_len(n / 10);
        proof { lemma_dec_len((n / 10) as nat); }
        c + 1
    } else {
        1
    }
}

/// Appends the decimal digits of `n`, zero-padded to at least `w` characters.
pub fn push_dec_padded(s: &mut String, n: u128, w: u64)
    ensures
        final(s)@ == old(s)@ + zpad(dec(n as nat), w as nat),
{
    let c = dec_len(n);
    if c < w as u128 {
        push_zeros(s, (w as u128 - c) as u64);
    }
    push_dec128(s, n);
    assert(final(s)@ =~= old(s)@ + zpad(dec(n as nat), w as nat));
}

/// The quotient and remainder of `n * 10^p` by `d`, computed without
/// forming the product.
fn scaled_div(n: u128, d: u128, pp: u128) -> (r: (u128, u128))
    requires
        d > 0,
        pp >= 1,
        d * pp <= u128::MAX,
        (n / d + 1) * pp <= u128::MAX,
    ensures
        r.0 == (n * pp) / (d as int),
        r.1 == (n * pp) % (d as int),
        r.0 < u128::MAX,
{
    let q0 = n / d;
    let r0 = n % d;
    assert(r0 * pp < d * pp) by (nonlinear_arith)
        requires
            r0 < d,
            pp >= 1,
    ;
    let t = r0 * pp;
    let q1 = t / d;
    let r1 = t % d;
    assert(q0 * pp + pp <= u128::MAX) by (nonlinear_arith)
        requires
            q0 == n / d,
            (n / d + 1) * pp <= u128::MAX,
    ;
    assert(q1 < pp) by (nonlinear_arith)
        requires
            d >= 1,
            q1 == t / d,
            t == r0 * pp,
            r0 < d,
            pp >= 1,
    ;
    let q = q0 * pp + q1;
    proof {
        assert(n == d * q0 + r0) by (nonlinear_arith)
            requires
                d > 0,
                q0 == n / d,
                r0 == n % d,
        ;
        assert(t == d * q1 + r1) by (nonlinear_arith)
            requires
                d > 0,
                q1 == t / d,
                r1 == t % d,
        ;
        assert(n * pp == (q0 * pp + q1) * d + r1) by (nonlinear_arith)
            requires
                n == d * q0 + r0,
                t == r0 * pp,
                t == d * q1 + r1,
        ;
        lemma_fundamental_div_mod_converse((n * pp) as int, d as int, q as int, r1 as int);
    }
    (q, r1)
}

/// Appends `n / d` rendered with `p` decimal places, rounded half to even.
pub fn push_fixed(s: &mut String, n: u128, d: u128, p: u32)
    requires
        d > 0,
        p <= 16,
        d * pow10(p as nat) <= u128::MAX,
        (n / d + 1) * pow10(p as nat) <= u128::MAX,
    ensures
        final(s)@ == old(s)@ + fixed_s(n as nat, d as nat, p as nat),
{
    let pp = pow10_u128(p);
    let (q, r) = scaled_div(n, d, pp);
    let v = if r > d - r || (r == d - r && q % 2 == 1) { q + 1 } else { q };
    assert(v == round_div((n * pp) as nat, d as nat));
    if p == 0 {
        push_dec128(s, v);
    } else {
        push_dec128(s, v / pp);
        push_char_pub(s, '.');
        push_dec_padded(s, v % pp, p as u64);
    }
    assert(final(s)@ =~= old(s)@ + fixed_s(n as nat, d as nat, p as nat));
}

/// `n / d` rendered with `p` decimal places, rounded half to even.
pub fn fixed_string(n: u128, d: u128, p: u32) -> (r: String)
    requires
        d > 0,
        p <= 16,
        d * pow10(p as nat) <= u128::MAX,
        (n / d + 1) * pow10(p as nat) <= u128::MAX,
    ensures
        r@ == fixed_s(n as nat, d as nat, p as nat),
{
    let mut s = String::new();
    push_fixed(&mut s, n, d, p);
    assert(s@ =~= fixed_s(n as nat, d as nat, p as nat));
    s
}

/// Appends `n / d` with `p` decimal places, zero-padded to at least `w` characters.
pub fn push_fixed_padded(s: &mut String, n: u128, d: u128, p: u32, w: u64)
    requires
        d > 0,
        p <= 16,
        d * pow10(p as nat) <= u128::MAX,
        (n / d + 1) * pow10(p as nat) <= u128::MAX,
    ensures
        final(s)@ == old(s)@ + zpad(fixed_s(n as nat, d as nat, p as nat), w as nat),
{
    let t = fixed_string(n, d, p);
    let len = t.as_str().unicode_len() as u64;
    if len < w {
        push_zeros(s, w - len);
    }
    push_str(s, t.as_str());
    assert(final(s)@ =~= old(s)@ + zpad(fixed_s(n as nat, d as nat, p as nat), w as nat));
}

/// Appends the `w` digits of the fraction `f` without trailing zeros.
fn push_frac_digits(s: &mut String, f: u128, w: u64)
    ensures
        final(s)@ == old(s)@ + frac_digits_s(f as nat, w as nat),
    decreases w,
{
    if w > 0 && f % 10 == 0 {
        push_frac_digits(s, f / 10, w - 1);
    } else {
        push_dec_padded(s, f, w);
    }
}

/// Appends `n / d`, exact at `p` decimal places, in plain form.
pub fn push_plain(s: &mut String, n: u128, d: u128, p: u32)
    requires
        d > 0,
        p <= 16,
        d * pow10(p as nat) <= u128::MAX,
        (n / d + 1) * pow10(p as nat) <= u128::MAX,
    ensures
        final(s)@ == old(s)@ + plain_s(n as nat, d as nat, p as nat),
{
    let pp = pow10_u128(p);
    let (v, _r) = scaled_div(n, d, pp);
    let f = v % pp;
    push_dec128(s, v / pp);
    if f != 0 {
        push_char_pub(s, '.');
        push_frac_digits(s, f, p as u64);
    }
    assert(final(s)@ =~= old(s)@ + plain_s(n as nat, d as nat, p as nat));
}

} // verus!
