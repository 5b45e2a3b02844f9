//! Text of token counts for reports: plain below a thousand, else in
//! thousands (`K`) or millions (`M`) with one decimal.
//!
//! The decimal is the one that Rust prints with `{:.1}` for the `f64`
//! quotient `count as f64 / 1000.0` (or `/ 1_000_000.0`): the quotient is
//! rounded to the nearest `f64` (ties to even), and that `f64` is rounded to
//! tenths (ties to even). Both roundings are computed here exactly on integers.

use vstd::prelude::*;
use vstd::arithmetic::power2::{pow2, lemma_pow2_unfold, lemma_pow2_adds, lemma_pow2_pos};

verus! {

/// `n / d` rounded to the nearest integer, ties to even.
pub open spec fn round_half_even(n: nat, d: nat) -> nat
    recommends
        d > 0,
{
    let q = n / d;
    let r = n % d;
    if 2 * r < d {
        q
    } else if 2 * r > d {
        q + 1
    } else if q % 2 == 0 {
        q
    } else {
        q + 1
    }
}

/// Position of the highest set bit of `m` (0 for `m` below 2).
pub open spec fn ilog2(m: nat) -> nat
    decreases m,
{
    if m < 2 {
        0
    } else {
        1 + ilog2(m / 2)
    }
}

/// The value of `t as f64`: `t` rounded to 53 significant bits, ties to even.
pub open spec fn as_f64(t: nat) -> nat {
    if t < pow2(53) {
        t
    } else {
        let s = (ilog2(t) - 52) as nat;
        round_half_even(t, pow2(s)) * pow2(s)
    }
}

/// Binary exponent of the quotient `n / d` (for `n >= d`).
pub open spec fn quotient_exponent(n: nat, d: nat) -> nat {
    ilog2(n / d)
}

/// Significand of the `f64` nearest to `n / d`: that `f64` is this
/// significand times `2^(e - 52)` for `e = quotient_exponent(n, d)`.
pub open spec fn quotient_significand(n: nat, d: nat) -> nat {
    round_half_even(n * pow2((52 - quotient_exponent(n, d)) as nat), d)
}

/// The `f64` nearest to `n / d`, in tenths, rounded to the nearest tenth
/// (ties to even).
pub open spec fn quotient_tenths(n: nat, d: nat) -> nat {
    round_half_even(quotient_significand(n, d) * 10, pow2((52 - quotient_exponent(n, d)) as nat))
}

/// The decimal digit `d` as a character.
pub open spec fn digit(d: nat) -> char {
    ((d + 48) as u8) as char
}

/// Decimal text of `n`.
pub open spec fn decimal(n: nat) -> Seq<char>
    decreases n,
{
    if n < 10 {
        seq![digit(n)]
    } else {
        decimal(n / 10).push(digit(n % 10))
    }
}

/// Decimal text of `tenths / 10` with exactly one decimal.
pub open spec fn one_decimal(tenths: nat) -> Seq<char> {
    decimal(tenths / 10) + seq!['.', digit(tenths % 10)]
}

/// The text of a token count.
pub open spec fn spec_format_tokens(t: nat) -> Seq<char> {
    if t < 1000 {
        decimal(t)
    } else if t < 1_000_000 {
        one_decimal(quotient_tenths(t, 1000)).push('K')
    } else {
        one_decimal(quotient_tenths(as_f64(t), 1_000_000)).push('M')
    }
}

/// Appends a character with `String::push`. Claimed: the text grows by that
/// character at its end, as the standard library documents.
#[verifier::external_body]
fn push_char(s: &mut String, c: char)
    ensures
        final(s)@ == old(s)@.push(c),
{
    s.push(c);
}

proof fn lemma_ilog2_bounds(m: nat)
    requires
        m >= 1,
    ensures
        pow2(ilog2(m)) <= m < pow2(ilog2(m) + 1),
    decreases m,
{
    if m < 2 {
        lemma_pow2_unfold(1);
        assert(pow2(0) == 1) by {
            vstd::arithmetic::power2::lemma2_to64();
        }
    } else {
        lemma_ilog2_bounds(m / 2);
        let k = ilog2(m / 2);
        lemma_pow2_unfold(k + 1);
        lemma_pow2_unfold(k + 2);
    }
}

proof fn lemma_ilog2_below(m: nat, k: nat)
    requires
        1 <= m < pow2(k),
    ensures
        ilog2(m) < k,
{
    lemma_ilog2_bounds(m);
    if ilog2(m) > k {
        vstd::arithmetic::power2::lemma_pow2_strictly_increases(k, ilog2(m));
    }
}

fn digit_char(d: u128) -> (c: char)
    requires
        d < 10,
    ensures
        c == digit(d as nat),
{
    let b: u8 = d as u8;
    (b + 48) as char
}

/// Appends the decimal text of `n`.
fn push_decimal(s: &mut String, n: u128)
    ensures
        final(s)@ == old(s)@ + decimal(n as nat),
    decreases n,
{
    if n >= 10 {
        push_decimal(s, n / 10);
    }
    push_char(s, digit_char(n % 10));
    proof {
        if n < 10 {
            assert(n % 10 == n);
        }
    }
    assert(final(s)@ =~= old(s)@ + decimal(n as nat)) by {
        if n >= 10 {
            assert(decimal(n as nat) == decimal((n / 10) as nat).push(digit((n % 10) as nat)));
        } else {
            assert(decimal(n as nat) == seq![digit(n as nat)]);
        }
    }
}

/// `n / d` rounded to the nearest integer, ties to even.
fn round_half_even_exec(n: u128, d: u128) -> (r: u128)
    requires
        d > 0,
        n / d < u128::MAX,
    ensures
        r == round_half_even(n as nat, d as nat),
{
    let q = n / d;
    let r = n % d;
    if r < d - r {
        q
    } else if r > d - r {
        q + 1
    } else if q % 2 == 0 {
        q
    } else {
        q + 1
    }
}

/// `pow2(k)` for `k` up to 64.
fn pow2_exec(k: u32) -> (r: u128)
    requires
        k <= 64,
    ensures
        r == pow2(k as nat),
{
    let mut r: u128 = 1;
    let mut i: u32 = 0;
    proof {
        vstd::arithmetic::power2::lemma2_to64();
    }
    while i < k
        invariant
            i <= k,
            k <= 64,
            r == pow2(i as nat),
        decreases k - i,
    {
        proof {
            lemma_pow2_unfold((i + 1) as nat);
            if i + 1 < 64 {
                vstd::arithmetic::power2::lemma_pow2_strictly_increases((i + 1) as nat, 64);
            }
            vstd::arithmetic::power2::lemma2_to64();
        }
        r = r * 2;
        i = i + 1;
    }
    r
}

/// `ilog2(m)`.
fn ilog2_exec(m: u128) -> (r: u32)
    ensures
        r == ilog2(m as nat),
        r <= 128,
{
    proof {
        if m >= 1 {
            vstd::arithmetic::power2::lemma2_to64();
            lemma_pow2_adds(64, 64);
            lemma_ilog2_below(m as nat, 128);
        }
    }
    let mut x = m;
    let mut e: u32 = 0;
    while x >= 2
        invariant
            ilog2(m as nat) == e + ilog2(x as nat),
            ilog2(m as nat) <= 127,
        decreases x,
    {
        x = x / 2;
        e = e + 1;
    }
    e
}

/// The `f64` nearest to `n / d`, in tenths rounded to the nearest tenth.
fn quotient_tenths_exec(n: u128, d: u128) -> (r: u128)
    requires
        1 <= d <= 1_000_000,
        d <= n,
        n < d * pow2(53),
    ensures
        r == quotient_tenths(n as nat, d as nat),
        r < pow2(57),
{
    proof {
        vstd::arithmetic::power2::lemma2_to64();
        vstd::arithmetic::power2::lemma2_to64_rest();
    }
    let q = n / d;
    proof {
        assert(q >= 1) by (nonlinear_arith)
            requires d <= n, d >= 1, q == n / d;
        assert(q < pow2(53)) by (nonlinear_arith)
            requires n < d * pow2(53), d >= 1, q == n / d;
        lemma_ilog2_bounds(q as nat);
        lemma_ilog2_below(q as nat, 53);
    }
    let e = ilog2_exec(q);
    let k: u32 = 52 - e;
    let scale = pow2_exec(k);
    proof {
        lemma_pow2_adds((e + 1) as nat, k as nat);
        assert((e + 1) as nat + k as nat == 53);
        lemma_pow2_pos(k as nat);
        lemma_pow2_pos(e as nat);
        let pe1 = pow2((e + 1) as nat);
        assert(n < d * pe1) by (nonlinear_arith)
            requires q == n / d, q < pe1, d >= 1;
        assert(n * scale < d * pow2(53)) by (nonlinear_arith)
            requires n < d * pe1, scale > 0, pe1 * scale == pow2(53);
        assert(d * pow2(53) <= 1_000_000 * pow2(53)) by (nonlinear_arith)
            requires d <= 1_000_000, pow2(53) > 0;
    }
    let scaled: u128 = n * scale;
    proof {
        assert(scaled / d < pow2(53)) by (nonlinear_arith)
            requires scaled < d * pow2(53), d >= 1;
    }
    let m = round_half_even_exec(scaled, d);
    assert(m <= pow2(53));
    let tenths = round_half_even_exec(m * 10, scale);
    proof {
        assert(((m * 10) as u128) / scale <= m * 10) by (nonlinear_arith)
            requires scale >= 1;
        assert(pow2(57) == 144115188075855872) by {
            lemma_pow2_adds(53, 4);
        }
    }
    tenths
}

/// The value of `t as f64`, rounded to 53 significant bits.
fn as_f64_exec(t: usize) -> (r: u128)
    ensures
        r == as_f64(t as nat),
        t >= 1_000_000 ==> 1_000_000 <= r <= pow2(64),
{
    proof {
        vstd::arithmetic::power2::lemma2_to64();
        vstd::arithmetic::power2::lemma2_to64_rest();
    }
    let n: u128 = t as u128;
    if n < 9007199254740992 {
        return n;
    }
    proof {
        lemma_ilog2_bounds(n as nat);
        assert(n < pow2(64));
        lemma_ilog2_below(n as nat, 64);
        if ilog2(n as nat) < 53 {
            lemma_pow2_unfold(53);
            if ilog2(n as nat) < 52 {
                vstd::arithmetic::power2::lemma_pow2_strictly_increases(ilog2(n as nat) + 1, 53);
            }
        }
    }
    let b = ilog2_exec(n);
    let s: u32 = b - 52;
    let p = pow2_exec(s);
    proof {
        lemma_pow2_adds(52, s as nat);
        lemma_pow2_adds(53, s as nat);
        lemma_pow2_unfold((b + 1) as nat);
        lemma_pow2_pos(s as nat);
        assert(pow2((b + 1) as nat) == pow2(53) * p);
        assert(n / p < pow2(53)) by (nonlinear_arith)
            requires n < pow2(53) * p, p > 0;
        assert(n / p >= pow2(52)) by (nonlinear_arith)
            requires n >= pow2(52) * p, p > 0;
    }
    let m = round_half_even_exec(n, p);
    proof {
        assert(m <= pow2(53));
        assert(m * p <= pow2(53) * p) by (nonlinear_arith)
            requires m <= pow2(53), p > 0;
        assert(m * p >= pow2(52) * p) by (nonlinear_arith)
            requires m >= pow2(52), p > 0;
        assert(pow2(52) * p >= pow2(52)) by (nonlinear_arith)
            requires p >= 1;
        if s < 11 {
            vstd::arithmetic::power2::lemma_pow2_strictly_increases((53 + s) as nat, 64);
        }
    }
    m * p
}

/// Text of a token count: plain below 1000, else thousands with one decimal
/// and `K` below a million, else millions with one decimal and `M`.
pub fn format_tokens(tokens: usize) -> (r: String)
    ensures
        r@ == spec_format_tokens(tokens as nat),
{
    let mut s = String::new();
    proof {
        vstd::arithmetic::power2::lemma2_to64();
        vstd::arithmetic::power2::lemma2_to64_rest();
    }
    if tokens < 1000 {
        push_decimal(&mut s, tokens as u128);
    } else {
        let tenths = if tokens < 1_000_000 {
            quotient_tenths_exec(tokens as u128, 1000)
        } else {
            let f = as_f64_exec(tokens);
            quotient_tenths_exec(f, 1_000_000)
        };
        push_decimal(&mut s, tenths / 10);
        push_char(&mut s, '.');
        push_char(&mut s, digit_char(tenths % 10));
        if tokens < 1_000_000 {
            push_char(&mut s, 'K');
        } else {
            push_char(&mut s, 'M');
        }
    }
    proof {
        assert(s@ =~= spec_format_tokens(tokens as nat));
    }
    s
}

/// The number that a text of decimal digits reads as.
pub open spec fn decimal_value(s: Seq<char>) -> nat
    decreases s.len(),
{
    if s.len() == 0 {
        0
    } else {
        decimal_value(s.drop_last()) * 10 + ((s.last() as nat) - 48) as nat
    }
}

proof fn lemma_digit_value(d: nat)
    requires
        d < 10,
    ensures
        digit(d) as nat == d + 48,
{
    let b: u8 = (d + 48) as u8;
    assert(b as nat == d + 48);
    assert((b as char) as u32 == b as u32);
}

/// The decimal text of a number holds only the digits `0` to `9`, starts
/// with `0` only for zero itself, and reads back as the number.
pub proof fn lemma_decimal_reads_back(n: nat)
    ensures
        decimal_value(decimal(n)) == n,
        forall|i: int| 0 <= i < decimal(n).len() ==> '0' <= #[trigger] decimal(n)[i] <= '9',
        n > 0 ==> decimal(n)[0] != '0',
    decreases n,
{
    if n < 10 {
        lemma_digit_value(n);
        assert(decimal(n) == seq![digit(n)]);
        assert(seq![digit(n)].drop_last() =~= Seq::<char>::empty());
        assert(seq![digit(n)].last() == digit(n));
        assert(decimal_value(Seq::<char>::empty()) == 0);
        assert(decimal_value(seq![digit(n)]) == n);
    } else {
        lemma_decimal_reads_back(n / 10);
        lemma_digit_value(n % 10);
        let d = decimal(n / 10);
        assert(decimal(n) == d.push(digit(n % 10)));
        assert(d.push(digit(n % 10)).drop_last() =~= d);
        assert(d.push(digit(n % 10)).last() == digit(n % 10));
        assert(decimal_value(decimal(n)) == decimal_value(d) * 10 + ((digit(n % 10) as nat) - 48) as nat);
        assert((n / 10) * 10 + n % 10 == n);
        assert(d.push(digit(n % 10))[0] == d[0]);
        assert forall|i: int| 0 <= i < decimal(n).len() implies '0' <= #[trigger] decimal(n)[i] <= '9' by {
            if i < d.len() {
                assert(decimal(n)[i] == d[i]);
            }
        }
    }
}

proof fn lemma_round_half_even_near(n: nat, d: nat)
    requires
        d > 0,
    ensures
        2 * n <= 2 * d * round_half_even(n, d) + d,
        2 * d * round_half_even(n, d) <= 2 * n + d,
{
    let q = n / d;
    let r = n % d;
    vstd::arithmetic::div_mod::lemma_fundamental_div_mod(n as int, d as int);
    assert(n == d * q + r);
    assert(2 * d * (q + 1) == 2 * d * q + 2 * d) by (nonlinear_arith);
    assert(2 * n == 2 * d * q + 2 * r) by (nonlinear_arith)
        requires
            n == d * q + r,
    ;
}

/// A count from one thousand to below one million is shown in thousands with
/// one decimal that lies within half a tenth of the exact quotient.
pub proof fn lemma_thousands_accuracy(t: nat)
    requires
        1000 <= t < 1_000_000,
    ensures
        t <= quotient_tenths(t, 1000) * 100 + 50,
        quotient_tenths(t, 1000) * 100 <= t + 50,
{
    let m = t / 1000;
    vstd::arithmetic::power2::lemma2_to64();
    vstd::arithmetic::power2::lemma2_to64_rest();
    lemma_ilog2_below(m, 10);
    let e = quotient_exponent(t, 1000);
    let k = (52 - e) as nat;
    assert(43 <= k);
    if k > 43 {
        vstd::arithmetic::power2::lemma_pow2_strictly_increases(43, k);
    }
    let p = pow2(k);
    assert(p >= 1000);
    let sig = quotient_significand(t, 1000);
    let tenths = quotient_tenths(t, 1000);
    assert(sig == round_half_even(t * p, 1000));
    assert(tenths == round_half_even(sig * 10, p));
    lemma_round_half_even_near(t * p, 1000);
    lemma_round_half_even_near(sig * 10, p);
    assert(p * (200 * tenths) < p * (2 * t + 102)) by (nonlinear_arith)
        requires
            2 * p * tenths <= 2 * (sig * 10) + p,
            2 * 1000 * sig <= 2 * (t * p) + 1000,
            p >= 1000,
    ;
    assert(200 * tenths < 2 * t + 102) by (nonlinear_arith)
        requires
            p * (200 * tenths) < p * (2 * t + 102),
            p > 0,
    ;
    assert(p * (2 * t) < p * (200 * tenths + 102)) by (nonlinear_arith)
        requires
            2 * (sig * 10) <= 2 * p * tenths + p,
            2 * (t * p) <= 2 * 1000 * sig + 1000,
            p >= 1000,
    ;
    assert(2 * t < 200 * tenths + 102) by (nonlinear_arith)
        requires
            p * (2 * t) < p * (200 * tenths + 102),
            p > 0,
    ;
}

/// `t as f64` lies within 1024 of `t` for every count below `2^64`.
pub proof fn lemma_as_f64_near(t: nat)
    requires
        t < pow2(64),
    ensures
        t <= as_f64(t) + 1024,
        as_f64(t) <= t + 1024,
{
    vstd::arithmetic::power2::lemma2_to64();
    vstd::arithmetic::power2::lemma2_to64_rest();
    if t >= pow2(53) {
        lemma_ilog2_below(t, 64);
        lemma_ilog2_bounds(t);
        if ilog2(t) < 53 {
            vstd::arithmetic::power2::lemma_pow2_strictly_increases(ilog2(t) + 1, 53);
        }
        let sh = (ilog2(t) - 52) as nat;
        assert(sh <= 11);
        if sh < 11 {
            vstd::arithmetic::power2::lemma_pow2_strictly_increases(sh, 11);
        }
        let q = pow2(sh);
        assert(q <= 2048);
        lemma_pow2_pos(sh);
        lemma_round_half_even_near(t, q);
        let r = round_half_even(t, q);
        assert(as_f64(t) == r * q);
        assert(2 * t <= 2 * (r * q) + 2048 && 2 * (r * q) <= 2 * t + 2048) by (nonlinear_arith)
            requires
                2 * t <= 2 * q * r + q,
                2 * q * r <= 2 * t + q,
                q <= 2048,
        ;
    }
}

/// A count of a million or more, below `2^64`, is shown in millions with one
/// decimal that lies within 0.053 million of the count.
pub proof fn lemma_millions_accuracy(t: nat)
    requires
        1_000_000 <= t < pow2(64),
    ensures
        t <= quotient_tenths(as_f64(t), 1_000_000) * 100_000 + 53_000,
        quotient_tenths(as_f64(t), 1_000_000) * 100_000 <= t + 53_000,
{
    vstd::arithmetic::power2::lemma2_to64();
    vstd::arithmetic::power2::lemma2_to64_rest();
    lemma_as_f64_near(t);
    let n = as_f64(t);
    if t < pow2(53) {
        assert(n == t);
    }
    assert(n >= 1_000_000);
    let m = n / 1_000_000;
    assert(m < pow2(45));
    lemma_ilog2_below(m, 45);
    let e = quotient_exponent(n, 1_000_000);
    let k = (52 - e) as nat;
    assert(8 <= k);
    if k > 8 {
        vstd::arithmetic::power2::lemma_pow2_strictly_increases(8, k);
    }
    let p = pow2(k);
    assert(p >= 256);
    let sig = quotient_significand(n, 1_000_000);
    let tenths = quotient_tenths(n, 1_000_000);
    assert(sig == round_half_even(n * p, 1_000_000));
    assert(tenths == round_half_even(sig * 10, p));
    lemma_round_half_even_near(n * p, 1_000_000);
    lemma_round_half_even_near(sig * 10, p);
    assert(p * (200_000 * tenths) <= p * (2 * n + 103_907)) by (nonlinear_arith)
        requires
            2 * p * tenths <= 2 * (sig * 10) + p,
            2 * 1_000_000 * sig <= 2 * (n * p) + 1_000_000,
            p >= 256,
    ;
    assert(200_000 * tenths <= 2 * n + 103_907) by (nonlinear_arith)
        requires
            p * (200_000 * tenths) <= p * (2 * n + 103_907),
            p > 0,
    ;
    assert(p * (2 * n) <= p * (200_000 * tenths + 103_907)) by (nonlinear_arith)
        requires
            2 * (sig * 10) <= 2 * p * tenths + p,
            2 * (n * p) <= 2 * 1_000_000 * sig + 1_000_000,
            p >= 256,
    ;
    assert(2 * n <= 200_000 * tenths + 103_907) by (nonlinear_arith)
        requires
            p * (2 * n) <= p * (200_000 * tenths + 103_907),
            p > 0,
    ;
}

/// The text of a count: the count itself below a thousand; else a number
/// with one decimal and `K` (thousands, within half a tenth) below a
/// million, or `M` (millions, within 0.053 million) from a million on.
pub proof fn lemma_format_tokens_meaning(t: nat)
    requires
        t < pow2(64),
    ensures
        t < 1000 ==> spec_format_tokens(t) == decimal(t),
        1000 <= t < 1_000_000 ==> exists|tenths: nat|
            spec_format_tokens(t) == (#[trigger] one_decimal(tenths)).push('K') && t <= tenths * 100 + 50 && tenths * 100
                <= t + 50,
        1_000_000 <= t ==> exists|tenths: nat|
            spec_format_tokens(t) == (#[trigger] one_decimal(tenths)).push('M') && t <= tenths * 100_000 + 53_000
                && tenths * 100_000 <= t + 53_000,
{
    if 1000 <= t < 1_000_000 {
        lemma_thousands_accuracy(t);
        let tenths = quotient_tenths(t, 1000);
        assert(spec_format_tokens(t) == one_decimal(tenths).push('K'));
    }
    if 1_000_000 <= t {
        lemma_millions_accuracy(t);
        let tenths = quotient_tenths(as_f64(t), 1_000_000);
        assert(spec_format_tokens(t) == one_decimal(tenths).push('M'));
    }
}

} // verus!
