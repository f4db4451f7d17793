//! Exact integer arithmetic for the one-decimal sizes that the tool shows:
//! the value of `bytes as f64 / unit as f64`, printed with `{:.1}`.
//!
//! A `u64` becomes the nearest `f64` (53 significant bits, ties to even),
//! the quotient is again rounded to 53 significant bits, ties to even, and the
//! printed digit is the exact value of that double rounded to tenths, ties to
//! even. All three steps are stated and computed on integers.
use vstd::prelude::*;

verus! {

/// `2^e`.
pub open spec fn two_pow(e: nat) -> nat
    decreases e,
{
    if e == 0 {
        1
    } else {
        2 * two_pow((e - 1) as nat)
    }
}

/// `n / d` rounded to the nearest integer, ties to the even neighbour.
pub open spec fn round_half_even(n: nat, d: nat) -> nat {
    let q = n / d;
    let r = n % d;
    if 2 * r < d {
        q
    } else if 2 * r > d {
        q + 1
    } else if q % 2 == 0 {
        q
    } else {
        q + 1
    }
}

/// The number of binary digits of `n` (0 for 0).
pub open spec fn bit_length(n: nat) -> nat
    decreases n,
{
    if n == 0 {
        0
    } else {
        1 + bit_length(n / 2)
    }
}

/// The value of `b as f64` for an unsigned integer `b`: `b` rounded to 53
/// significant bits, ties to even.
pub open spec fn integer_as_f64(b: nat) -> nat {
    if bit_length(b) <= 53 {
        b
    } else {
        let e = (bit_length(b) - 53) as nat;
        round_half_even(b, two_pow(e)) * two_pow(e)
    }
}

/// The power of two that brings `x / u` into `[2^52, 2^53)`.
pub open spec fn quotient_scale(x: nat, u: nat) -> nat {
    (53 - bit_length(x / u)) as nat
}

/// Tenths of `bytes as f64 / unit as f64`, as `{:.1}` prints them: the
/// quotient of the two doubles rounded to 53 significant bits (ties to even)
/// is `m / 2^k`, and its exact value is rounded to tenths, ties to even.
pub open spec fn f64_tenths(bytes: nat, unit: nat) -> nat {
    let x = integer_as_f64(bytes);
    let k = quotient_scale(x, unit);
    let m = round_half_even(x * two_pow(k), unit);
    round_half_even(10 * m, two_pow(k))
}

// ───────────────────────────── lemmas ─────────────────────────────

/// `2^(a + b) == 2^a * 2^b`.
pub proof fn lemma_two_pow_adds(a: nat, b: nat)
    ensures
        two_pow(a + b) == two_pow(a) * two_pow(b),
    decreases a,
{
    if a > 0 {
        let a1 = (a - 1) as nat;
        lemma_two_pow_adds(a1, b);
        let x = two_pow(a1);
        let y = two_pow(b);
        assert(a + b == (a1 + b) + 1);
        assert(two_pow(a + b) == 2 * two_pow(a1 + b));
        assert(two_pow(a) == 2 * x);
        assert(2 * (x * y) == (2 * x) * y) by (nonlinear_arith);
    } else {
        assert(two_pow(0) == 1);
        assert(a + b == b);
    }
}

/// Powers of two are positive and grow with the exponent.
pub proof fn lemma_two_pow_monotone(a: nat, b: nat)
    requires
        a <= b,
    ensures
        0 < two_pow(a) <= two_pow(b),
    decreases b,
{
    if b > a {
        lemma_two_pow_monotone(a, (b - 1) as nat);
    } else {
        lemma_two_pow_positive(a);
    }
}

/// Powers of two are positive.
pub proof fn lemma_two_pow_positive(a: nat)
    ensures
        two_pow(a) > 0,
    decreases a,
{
    if a > 0 {
        lemma_two_pow_positive((a - 1) as nat);
    }
}

/// `2^(L-1) <= n < 2^L` for `L` the bit length of a positive `n`.
pub proof fn lemma_bit_length_bounds(n: nat)
    ensures
        n < two_pow(bit_length(n)),
        n > 0 ==> bit_length(n) >= 1 && two_pow((bit_length(n) - 1) as nat) <= n,
    decreases n,
{
    if n > 0 {
        lemma_bit_length_bounds(n / 2);
        if n / 2 > 0 {
            assert(two_pow((bit_length(n) - 1) as nat) == 2 * two_pow(
                (bit_length(n / 2) - 1) as nat,
            ));
        }
    }
}

/// Bit length is at most `L` exactly when the number is below `2^L`.
pub proof fn lemma_bit_length_below(n: nat, l: nat)
    ensures
        bit_length(n) <= l <==> n < two_pow(l),
{
    lemma_bit_length_bounds(n);
    if bit_length(n) <= l {
        lemma_two_pow_monotone(bit_length(n), l);
    } else {
        lemma_two_pow_monotone(l, (bit_length(n) - 1) as nat);
    }
}

/// Rounding a quotient lands on the floor or one above it.
pub proof fn lemma_round_half_even_bounds(n: nat, d: nat)
    requires
        d > 0,
    ensures
        n / d <= round_half_even(n, d) <= n / d + 1,
        (n / d) * d <= n,
        n < (n / d + 1) * d,
{
    assert((n / d) * d + n % d == n) by (nonlinear_arith)
        requires
            d > 0,
    ;
    assert(n % d < d) by (nonlinear_arith)
        requires
            d > 0,
    ;
    assert((n / d + 1) * d == (n / d) * d + d) by (nonlinear_arith);
}

/// The powers of two that the size computation uses.
pub proof fn lemma_two_pow_values()
    ensures
        two_pow(11) == 2048,
        two_pow(41) == 0x200_0000_0000,
        two_pow(53) == 0x20_0000_0000_0000,
        two_pow(64) == 0x1_0000_0000_0000_0000,
        two_pow(126) == 0x4000_0000_0000_0000_0000_0000_0000_0000,
        two_pow(128) == 0x1_0000_0000_0000_0000_0000_0000_0000_0000,
{
    reveal_with_fuel(two_pow, 17);
    assert(two_pow(16) == 65536);
    assert(two_pow(12) == 4096);
    assert(two_pow(9) == 512);
    assert(two_pow(14) == 16384);
    lemma_two_pow_adds(16, 16);
    lemma_two_pow_adds(32, 9);
    lemma_two_pow_adds(41, 12);
    lemma_two_pow_adds(32, 32);
    lemma_two_pow_adds(16, 14);
    lemma_two_pow_adds(32, 30);
    lemma_two_pow_adds(64, 62);
    lemma_two_pow_adds(64, 64);
}

// ───────────────────────────── executable forms ─────────────────────────────

fn two_pow_exec(e: u32) -> (r: u128)
    requires
        e < 127,
    ensures
        r == two_pow(e as nat),
{
    let mut p: u128 = 1;
    let mut i: u32 = 0;
    while i < e
        invariant
            i <= e < 127,
            p == two_pow(i as nat),
        decreases e - i,
    {
        proof {
            lemma_two_pow_monotone(i as nat, 126);
            lemma_two_pow_values();
        }
        p = p * 2;
        i = i + 1;
    }
    p
}

fn bit_length_exec(n: u128) -> (r: u32)
    ensures
        r == bit_length(n as nat),
        r <= 128,
{
    let mut m: u128 = n;
    let mut count: u32 = 0;
    proof {
        lemma_bit_length_below(n as nat, 128);
        lemma_two_pow_values();
    }
    while m > 0
        invariant
            bit_length(n as nat) == count + bit_length(m as nat),
            bit_length(n as nat) <= 128,
        decreases m,
    {
        m = m / 2;
        count = count + 1;
    }
    count
}

fn round_half_even_exec(n: u128, d: u128) -> (r: u128)
    requires
        0 < d <= 0x1_0000_0000_0000_0000_0000_0000_0000,
        n < 0x1_0000_0000_0000_0000_0000_0000_0000,
    ensures
        r == round_half_even(n as nat, d as nat),
{
    let q = n / d;
    let r = n % d;
    if 2 * r < d {
        q
    } else if 2 * r > d {
        q + 1
    } else if q % 2 == 0 {
        q
    } else {
        q + 1
    }
}

/// Tenths of `bytes as f64 / unit as f64` (see [`f64_tenths`]).
pub(crate) fn f64_tenths_exec(bytes: u64, unit: u64) -> (t: u64)
    requires
        1000 <= unit <= 1_000_000_000_000,
        unit <= bytes,
        (bytes as nat) / (unit as nat) < 0x100_0000_0000,
    ensures
        t == f64_tenths(bytes as nat, unit as nat),
{
    let b = bytes as u128;
    let u = unit as u128;
    let bl = bit_length_exec(b);
    proof {
        lemma_bit_length_below(bytes as nat, 64);
        lemma_two_pow_values();
    }
    let x: u128 = if bl <= 53 {
        b
    } else {
        let e = bl - 53;
        let p = two_pow_exec(e);
        proof {
            lemma_two_pow_monotone(e as nat, 11);
            lemma_two_pow_values();
            lemma_round_half_even_bounds(b as nat, p as nat);
            lemma_bit_length_below(bytes as nat, 53);
        }
        let rounded = round_half_even_exec(b, p);
        assert(rounded * p <= (b / p + 1) * p) by (nonlinear_arith)
            requires
                rounded <= b / p + 1,
        ;
        assert((b / p + 1) * p <= b + p) by (nonlinear_arith)
            requires
                (b / p) * p <= b,
        ;
        assert(rounded * p <= b + 2048);
        rounded * p
    };
    proof {
        if bl > 53 {
            let e = (bl - 53) as nat;
            let p = two_pow(e);
            lemma_two_pow_monotone(e, 11);
            lemma_two_pow_values();
            lemma_round_half_even_bounds(b as nat, p);
            lemma_bit_length_below(bytes as nat, 53);
            assert((b as nat / p) * p <= x) by (nonlinear_arith)
                requires
                    x == round_half_even(b as nat, p) * p,
                    b as nat / p <= round_half_even(b as nat, p),
                    p > 0,
            ;
            assert(b < (b as nat / p) * p + p) by (nonlinear_arith)
                requires
                    b < (b as nat / p + 1) * p,
            ;
            assert(b >= 0x20_0000_0000_0000);
        }
        assert(x == integer_as_f64(bytes as nat));
        assert(unit <= x);
        assert(x <= b + 2048);
    }
    let q = x / u;
    proof {
        assert(q >= 1) by (nonlinear_arith)
            requires
                u <= x,
                q == x / u,
                u > 0,
        ;
        assert(q <= (bytes as nat) / (unit as nat) + 3) by (nonlinear_arith)
            requires
                x <= b + 2048,
                q == x / u,
                u >= 1000,
                b == bytes,
                u == unit,
        ;
        lemma_bit_length_below(q as nat, 41);
        lemma_two_pow_values();
        lemma_bit_length_bounds(q as nat);
    }
    let ql = bit_length_exec(q);
    let k = 53 - ql;
    let pk = two_pow_exec(k);
    proof {
        lemma_two_pow_positive(k as nat);
        lemma_two_pow_adds(ql as nat, k as nat);
        lemma_two_pow_values();
        lemma_round_half_even_bounds(x as nat, u as nat);
        assert(x < u * two_pow(ql as nat)) by (nonlinear_arith)
            requires
                x < (x / u + 1) * u,
                x / u + 1 <= two_pow(ql as nat),
                u > 0,
        ;
        assert(x * pk < u * 0x20_0000_0000_0000) by (nonlinear_arith)
            requires
                x < u * two_pow(ql as nat),
                pk == two_pow(k as nat),
                two_pow(ql as nat) * two_pow(k as nat) == 0x20_0000_0000_0000,
                pk > 0,
        ;
        lemma_two_pow_monotone(k as nat, 52);
        lemma_two_pow_monotone(0, k as nat);
    }
    let m = round_half_even_exec(x * pk, u);
    proof {
        lemma_round_half_even_bounds((x * pk) as nat, u as nat);
        assert((x * pk) as int / (u as int) < 0x20_0000_0000_0000) by (nonlinear_arith)
            requires
                x * pk < u * 0x20_0000_0000_0000,
                u > 0,
        ;
    }
    let t = round_half_even_exec(10 * m, pk);
    proof {
        lemma_round_half_even_bounds((10 * m) as nat, pk as nat);
        assert((10 * m) as int / (pk as int) <= 10 * m) by (nonlinear_arith)
            requires
                pk >= 1,
        ;
    }
    t as u64
}

} // verus!
