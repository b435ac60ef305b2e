//! Decimal formatting of integers as `format!` writes them: plain, zero-padded
//! to a width (`{:04}`), and right-aligned text (`{:>8}`).

use vstd::prelude::*;
use crate::text::push_char;

verus! {

/// The character of a decimal digit.
pub open spec fn digit_char(d: nat) -> char {
    (48 + d) as char
}

/// The decimal digits of `n`, most significant first, without leading zeros.
pub open spec fn dec(n: nat) -> Seq<char>
    decreases n,
{
    if n < 10 {
        seq![digit_char(n)]
    } else {
        dec(n / 10).push(digit_char(n % 10))
    }
}

/// `s` preceded by as many `fill` characters as bring it to `w` characters.
pub open spec fn pad_left(s: Seq<char>, w: nat, fill: char) -> Seq<char> {
    if s.len() >= w { s } else { Seq::new((w - s.len()) as nat, |i: int| fill) + s }
}

/// `n` as `format!("{:0w$}", n)` writes it: the sign counts towards the width,
/// and zeros go between the sign and the digits.
pub open spec fn fmt_padded(n: int, w: nat) -> Seq<char> {
    if n < 0 {
        seq!['-'] + pad_left(dec((-n) as nat), if w >= 1 { (w - 1) as nat } else { 0 }, '0')
    } else {
        pad_left(dec(n as nat), w, '0')
    }
}

/// `dec(n)` is at least one character long, all of them digits.
pub proof fn lemma_dec_len(n: nat)
    ensures
        dec(n).len() >= 1,
    decreases n,
{
    if n >= 10 {
        lemma_dec_len(n / 10);
    }
}

fn digit(d: u64) -> (c: char)
    requires
        d < 10,
    ensures
        c == digit_char(d as nat),
{
    match d {
        0 => '0',
        1 => '1',
        2 => '2',
        3 => '3',
        4 => '4',
        5 => '5',
        6 => '6',
        7 => '7',
        8 => '8',
        _ => '9',
    }
}

/// Append the decimal digits of `n` to `out`.
pub fn push_dec(out: &mut String, n: u64)
    ensures
        final(out)@ == old(out)@ + dec(n as nat),
    decreases n,
{
    if n >= 10 {
        push_dec(out, n / 10);
    }
    push_char(out, digit(n % 10));
    assert(final(out)@ =~= old(out)@ + dec(n as nat)) by {
        if n >= 10 {
            assert(dec(n as nat) == dec((n / 10) as nat).push(digit_char((n % 10) as nat)));
        }
    }
}

/// Append `fill` `k` times.
pub fn push_repeat(out: &mut String, fill: char, k: usize)
    ensures
        final(out)@ == old(out)@ + Seq::new(k as nat, |i: int| fill),
{
    let mut i: usize = 0;
    while i < k
        invariant
            i <= k,
            out@ == old(out)@ + Seq::new(i as nat, |j: int| fill),
        decreases k - i,
    {
        push_char(out, fill);
        i = i + 1;
        assert(out@ =~= old(out)@ + Seq::new(i as nat, |j: int| fill));
    }
}

/// Ten to the `k`.
pub open spec fn pow10(k: nat) -> nat
    decreases k,
{
    if k == 0 { 1 } else { 10 * pow10((k - 1) as nat) }
}

/// A number below `10^k` has at most `k` digits.
pub proof fn lemma_dec_len_bound(n: nat, k: nat)
    requires
        k >= 1,
        n < pow10(k),
    ensures
        dec(n).len() <= k,
    decreases k,
{
    if n >= 10 {
        let p = pow10((k - 1) as nat);
        assert(k >= 2) by {
            if k == 1 {
                assert(pow10(1) == 10 * pow10(0));
            }
        }
        assert(n / 10 < p) by (nonlinear_arith)
            requires n < 10 * p, p >= 1;
        lemma_pow10_pos((k - 1) as nat);
        lemma_dec_len_bound(n / 10, (k - 1) as nat);
    }
}

pub proof fn lemma_pow10_pos(k: nat)
    ensures
        pow10(k) >= 1,
    decreases k,
{
    if k > 0 {
        lemma_pow10_pos((k - 1) as nat);
    }
}

/// The number of decimal digits of `n` (at most twenty).
pub fn dec_len(n: u64) -> (k: usize)
    ensures
        k == dec(n as nat).len(),
        k <= 20,
    decreases n,
{
    proof {
        reveal_with_fuel(pow10, 21);
        assert(pow10(20) == 100000000000000000000);
        lemma_dec_len_bound(n as nat, 20);
    }
    if n >= 10 {
        let k = dec_len(n / 10);
        k + 1
    } else {
        1
    }
}

/// Append `n` zero-padded to `w` characters, as `format!("{:0w$}", n)`.
pub fn push_padded(out: &mut String, n: i64, w: usize)
    ensures
        final(out)@ == old(out)@ + fmt_padded(n as int, w as nat),
{
    let ghost before = out@;
    if n < 0 {
        let m: u64 = (0i128 - (n as i128)) as u64;
        push_char(out, '-');
        let k = dec_len(m);
        let wd: usize = if w >= 1 { w - 1 } else { 0 };
        if k < wd {
            push_repeat(out, '0', wd - k);
        }
        push_dec(out, m);
        assert(out@ =~= before + fmt_padded(n as int, w as nat));
    } else {
        let m = n as u64;
        let k = dec_len(m);
        if k < w {
            push_repeat(out, '0', w - k);
        }
        push_dec(out, m);
        assert(out@ =~= before + fmt_padded(n as int, w as nat));
    }
}

/// Append `s` right-aligned to `w` characters, as `format!("{:>w$}", s)`.
pub fn push_right_aligned(out: &mut String, s: &str, w: usize)
    ensures
        final(out)@ == old(out)@ + pad_left(s@, w as nat, ' '),
{
    let cs = crate::text::chars_of(s);
    let ghost before = out@;
    if cs.len() < w {
        push_repeat(out, ' ', w - cs.len());
    }
    let mut i: usize = 0;
    let ghost mid = out@;
    while i < cs.len()
        invariant
            i <= cs.len(),
            cs@ == s@,
            out@ == mid + cs@.take(i as int),
        decreases cs.len() - i,
    {
        push_char(out, cs[i]);
        i = i + 1;
        assert(out@ =~= mid + cs@.take(i as int));
    }
    assert(cs@.take(cs.len() as int) =~= cs@);
    assert(out@ =~= before + pad_left(s@, w as nat, ' '));
}


// ── One decimal, as `{:.1}` writes a float ──

/// The tenths that `n / d` rounds to, ties to the even count: what `{:.1}`
/// writes of the exact quotient, counted in tenths.
pub open spec fn tenths(n: nat, d: nat) -> nat {
    let q = (n * 10) / d;
    let r = (n * 10) % d;
    if 2 * r > d || (2 * r == d && q % 2 == 1) { q + 1 } else { q }
}

/// A count of tenths written with one decimal, such as `12.3`.
pub open spec fn tenths_text(t: nat) -> Seq<char> {
    dec(t / 10) + seq!['.'] + dec(t % 10)
}

/// The gap between neighbouring `f64` values at the integer `n`: 1 below
/// 2^53, and twice as much for each further bit.
pub open spec fn f64_ulp(n: nat) -> nat
    decreases n,
{
    if n < 0x20_0000_0000_0000 { 1 } else { 2 * f64_ulp(n / 2) }
}

/// `n` rounded to a multiple of `d`, ties to the even multiple.
pub open spec fn round_to_multiple(n: nat, d: nat) -> nat {
    let q = n / d;
    let r = n % d;
    (if 2 * r > d || (2 * r == d && q % 2 == 1) { q + 1 } else { q }) * d
}

/// The value of the integer `n` converted to `f64` (`n as f64`): the
/// nearest value with 53 significant bits, ties to even.
pub open spec fn f64_of(n: nat) -> nat {
    round_to_multiple(n, f64_ulp(n))
}

/// Below 2^53 the conversion to `f64` is exact.
pub proof fn lemma_f64_exact(n: nat)
    requires
        n < 0x20_0000_0000_0000,
    ensures
        f64_of(n) == n,
{
    assert(f64_ulp(n) == 1);
    assert(n / 1 == n && n % 1 == 0) by (nonlinear_arith);
}

/// The integer value of `n as f64`.
pub fn f64_value(n: u64) -> (f: u128)
    ensures
        f == f64_of(n as nat),
        f <= 0x1_0000_0000_0000_1000,
{
    let mut m: u64 = n;
    let mut d: u128 = 1;
    while m >= 0x20_0000_0000_0000
        invariant
            1 <= d <= 0x1000,
            m as nat == (n as nat) / (d as nat),
            f64_ulp(n as nat) == (d as nat) * f64_ulp(m as nat),
        decreases m,
    {
        proof {
            vstd::arithmetic::div_mod::lemma_div_denominator(n as int, d as int, 2);
            assert((d as nat) * (2 * f64_ulp((m / 2) as nat)) == ((2 * d) as nat) * f64_ulp((m / 2) as nat))
                by (nonlinear_arith);
            assert(d < 0x800) by (nonlinear_arith)
                requires
                    m as int == (n as int) / (d as int),
                    m >= 0x20_0000_0000_0000,
                    d >= 1,
                    n <= 0xffff_ffff_ffff_ffff,
            ;
        }
        m = m / 2;
        d = d * 2;
    }
    assert(f64_ulp(m as nat) == 1);
    assert(f64_ulp(n as nat) == d) by {
        assert((d as nat) * 1 == d as nat);
    }
    let q: u128 = (n as u128) / d;
    let r: u128 = (n as u128) % d;
    assert(q == m);
    let k: u128 = if 2 * r > d || (2 * r == d && q % 2 == 1) { q + 1 } else { q };
    assert(k * d <= n + d) by (nonlinear_arith)
        requires
            d >= 1,
            q == (n as int) / (d as int),
            k <= q + 1,
    ;
    k * d
}

/// Append `n / d` with one decimal, rounded as `{:.1}` rounds.
pub fn push_tenths(out: &mut String, n: u128, d: u128)
    requires
        0 < d <= 0x1_0000_0000_0000_0000,
        n <= 0x1_0000_0000_0000_1000,
        n / d <= 0xffff_ffff_ffff,
    ensures
        final(out)@ == old(out)@ + tenths_text(tenths(n as nat, d as nat)),
{
    let t10 = n * 10;
    let q = t10 / d;
    let r = t10 % d;
    assert(q <= 10 * (n / d) + 9) by (nonlinear_arith)
        requires
            d > 0,
            q == (n as int * 10) / (d as int),
    ;
    let t = if 2 * r > d || (2 * r == d && q % 2 == 1) { q + 1 } else { q };
    assert(t == tenths(n as nat, d as nat));
    push_dec(out, (t / 10) as u64);
    push_char(out, '.');
    push_dec(out, (t % 10) as u64);
    assert(final(out)@ =~= old(out)@ + tenths_text(t as nat));
}

} // verus!
