//! Showing an elapsed time as `seconds:milliseconds`, zero-padded to two and three digits.
//! The seconds are the whole milliseconds taken to single precision, divided by a
//! thousand in single precision and rounded down; this module works that rounding out
//! on integers.

use vstd::prelude::*;
use vstd::arithmetic::power2::{pow2, lemma_pow2_unfold, lemma_pow2_adds, lemma_pow2_strictly_increases, lemma2_to64};
use std::time::Duration;

verus! {

/// The character of a decimal digit.
pub open spec fn digit_char(d: nat) -> char {
    if d == 0 { '0' } else if d == 1 { '1' } else if d == 2 { '2' } else if d == 3 { '3' } else if d == 4 { '4' }
    else if d == 5 { '5' } else if d == 6 { '6' } else if d == 7 { '7' } else if d == 8 { '8' } else { '9' }
}

/// The decimal digits of `n`, most significant first, without leading zeros.
pub open spec fn decimal(n: nat) -> Seq<char>
    decreases n,
{
    if n < 10 {
        seq![digit_char(n)]
    } else {
        decimal(n / 10).push(digit_char(n % 10))
    }
}

/// `s` with zeros in front, up to `width` characters.
pub open spec fn zero_padded(s: Seq<char>, width: nat) -> Seq<char> {
    if s.len() >= width { s } else { Seq::new((width - s.len()) as nat, |i: int| '0') + s }
}

/// The number of binary digits of `n`; zero has none.
pub open spec fn bit_len(n: nat) -> nat
    decreases n,
{
    if n == 0 { 0 } else { 1 + bit_len(n / 2) }
}

/// `n / d` rounded to the nearest whole number, a tie going to the even one.
pub open spec fn round_half_even(n: nat, d: nat) -> nat {
    let q = n / d;
    let r = n % d;
    if 2 * r > d || (2 * r == d && q % 2 == 1) { q + 1 } else { q }
}

/// The rational `n / d`, taken to be at least 2^23, rounded to 24 significant binary
/// digits, a tie going to the even one: the rounding of single precision.
pub open spec fn round_to_24_bits(n: nat, d: nat) -> nat {
    let s = (bit_len(n / d) - 24) as nat;
    round_half_even(n, d * pow2(s)) * pow2(s)
}

/// The single-precision value of the whole number `m`: `m` itself below 2^24, else
/// rounded to 24 significant binary digits.
pub open spec fn single_of_whole(m: nat) -> nat {
    if m < 0x100_0000 { m } else { round_to_24_bits(m, 1) }
}

/// The whole seconds of `millis` milliseconds as single precision gives them: `millis`
/// in single precision, divided by a thousand with single-precision rounding, rounded
/// down. Both sides of the division are scaled by 2^40, which leaves the rounding as it
/// is and makes the quotient at least 2^23.
pub open spec fn single_seconds(millis: nat) -> nat {
    let x = single_of_whole(millis);
    if x == 0 { 0 } else { round_to_24_bits(x * 0x100_0000_0000, 1000) / 0x100_0000_0000 }
}

/// 10^k.
pub open spec fn pow10(k: nat) -> nat
    decreases k,
{
    if k == 0 { 1 } else { 10 * pow10((k - 1) as nat) }
}

/// A distance `d` lies within the gap `g`, the end of the gap counted or not.
pub open spec fn within(d: int, g: int, inclusive: bool) -> bool {
    if inclusive { d <= g } else { d < g }
}

/// The shortest decimal number that lies within `below` / 4 under `v` or `above` / 4
/// over it (the ends counted when `inclusive`), with at most `k` trailing zeros searched
/// from `k` down: at the first count of trailing zeros where the multiple of 10^k just
/// under `v` or the one just over it lies within, the one that does, the nearer one if
/// both do.
pub open spec fn shortest_within(v: nat, k: nat, below: nat, above: nat, inclusive: bool) -> nat
    decreases k,
{
    let p = pow10(k);
    let down = v / p * p;
    let up = down + p;
    let down_in = within(4 * (v - down), below as int, inclusive);
    let up_in = within(4 * (up - v), above as int, inclusive);
    if up_in && (!down_in || up - v < v - down) {
        up
    } else if down_in || k == 0 {
        down
    } else {
        shortest_within(v, (k - 1) as nat, below, above, inclusive)
    }
}

/// The number that `{}` prints for the single-precision value of the whole number `v`:
/// the shortest decimal that reads back as the same single-precision value, the nearest
/// to `v` among those. Below 2^24 that is `v`. From 2^24 on, `v` has 24 significant
/// binary digits with a last place `u`; the numbers that read back as `v` lie within `u / 2`
/// of it, within `u / 4` below it when `v` is a power of two, the ends counted when the
/// last of the 24 digits is 0. No whole number up to 10^29 has more than 30 trailing
/// zeros, so the search starts there.
pub open spec fn display_single(v: nat) -> nat {
    if v < 0x100_0000 {
        v
    } else {
        let u = pow2((bit_len(v) - 24) as nat);
        let below = if v == 0x80_0000 * u { u } else { 2 * u };
        shortest_within(v, 30, below, 2 * u, (v / u) % 2 == 0)
    }
}

/// The text of an elapsed time of `millis` milliseconds: the whole seconds as single
/// precision gives them and as `{}` prints them, padded to two digits, a colon, and the
/// remaining milliseconds, padded to three digits.
pub open spec fn elapsed_text(millis: nat) -> Seq<char> {
    zero_padded(decimal(display_single(single_seconds(millis))), 2) + seq![':'] + zero_padded(decimal(millis % 1000), 3)
}

/// The most whole milliseconds a `Duration` holds: `u64::MAX` seconds and 999 ms.
pub const MAX_DURATION_MILLIS: u128 = 18_446_744_073_709_551_615_999;

/// `n` lies between 2^(bit_len(n) - 1) and 2^bit_len(n).
proof fn lemma_bit_len(n: nat)
    ensures
        n < pow2(bit_len(n)),
        n > 0 ==> bit_len(n) >= 1 && pow2((bit_len(n) - 1) as nat) <= n,
    decreases n,
{
    lemma2_to64();
    if n > 0 {
        lemma_bit_len(n / 2);
        lemma_pow2_unfold(bit_len(n));
        if n >= 2 {
            lemma_pow2_unfold((bit_len(n) - 1) as nat);
        }
    }
}

/// Fewer binary digits than `e` for a number below 2^e, and at least `e + 1` for one at
/// least 2^e.
proof fn lemma_bit_len_bounds(n: nat, e: nat)
    ensures
        n < pow2(e) ==> bit_len(n) <= e,
        n >= pow2(e) ==> bit_len(n) > e,
{
    lemma_bit_len(n);
    if n < pow2(e) && bit_len(n) > e {
        if e < (bit_len(n) - 1) as nat {
            lemma_pow2_strictly_increases(e, (bit_len(n) - 1) as nat);
        }
    }
    if n >= pow2(e) && bit_len(n) <= e {
        if bit_len(n) < e {
            lemma_pow2_strictly_increases(bit_len(n), e);
        }
    }
}

/// The number of binary digits of `n`.
fn bit_length(n: u128) -> (b: u32)
    ensures
        b == bit_len(n as nat),
        b <= 128,
{
    proof {
        lemma2_to64();
        lemma_pow2_adds(64, 64);
        lemma_bit_len_bounds(n as nat, 128);
    }
    let mut k: u128 = n;
    let mut b: u32 = 0;
    while k > 0
        invariant
            b + bit_len(k as nat) == bit_len(n as nat),
            bit_len(n as nat) <= 128,
        decreases k,
    {
        k = k / 2;
        b = b + 1;
    }
    b
}

/// 2^s.
fn power_of_two(s: u32) -> (p: u128)
    requires
        s < 127,
    ensures
        p == pow2(s as nat),
{
    proof {
        lemma2_to64();
        lemma_pow2_adds(63, 64);
        lemma_pow2_adds(31, 32);
    }
    let mut p: u128 = 1;
    let mut i: u32 = 0;
    while i < s
        invariant
            i <= s < 127,
            p == pow2(i as nat),
            pow2(127) == 0x8000_0000_0000_0000_0000_0000_0000_0000,
        decreases s - i,
    {
        proof {
            lemma_pow2_unfold((i + 1) as nat);
            if i + 1 < 127 {
                lemma_pow2_strictly_increases((i + 1) as nat, 127);
            }
        }
        p = p * 2;
        i = i + 1;
    }
    p
}

/// `n / d` rounded to 24 significant binary digits, as `round_to_24_bits` says.
fn round_to_24_bits_exec(n: u128, d: u128) -> (r: u128)
    requires
        d > 0,
        n / d >= 0x80_0000,
        n < 0x4000_0000_0000_0000_0000_0000_0000_0000,
    ensures
        r == round_to_24_bits(n as nat, d as nat),
        r <= 2 * n,
{
    let whole = n / d;
    let b = bit_length(whole);
    proof {
        lemma2_to64();
        lemma_bit_len_bounds(whole as nat, 23);
        lemma_bit_len(whole as nat);
    }
    let s: u32 = b - 24;
    let p = power_of_two(s);
    proof {
        lemma_pow2_adds(s as nat, 23);
        assert(p * 0x80_0000 <= whole);
        assert(d * whole <= n) by (nonlinear_arith)
            requires whole == n / d, d > 0;
        assert(d * p <= n) by (nonlinear_arith)
            requires p * 0x80_0000 <= whole, d * whole <= n, d > 0;
        assert(p >= 1) by {
            vstd::arithmetic::power2::lemma_pow2_pos(s as nat);
        }
        assert(d * p >= 1) by (nonlinear_arith)
            requires d >= 1, p >= 1;
    }
    let unit = d * p;
    let q = n / unit;
    let rem = n % unit;
    proof {
        assert(q * p <= n && p <= n) by (nonlinear_arith)
            requires unit == d * p, q == n / unit, d >= 1, p >= 1, unit <= n;
    }
    let rounded = if 2 * rem > unit || (2 * rem == unit && q % 2 == 1) { q + 1 } else { q };
    proof {
        assert(rounded * p <= 2 * n) by (nonlinear_arith)
            requires rounded <= q + 1, q * p <= n, p <= n;
    }
    rounded * p
}

/// The whole seconds of `millis` milliseconds, as `single_seconds` says.
fn whole_single_seconds(millis: u128) -> (r: u128)
    requires
        millis <= MAX_DURATION_MILLIS,
    ensures
        r == single_seconds(millis as nat),
        r <= 4 * millis,
{
    let x: u128 = if millis < 0x100_0000 { millis } else { round_to_24_bits_exec(millis, 1) };
    if x == 0 {
        0
    } else {
        let scaled = round_to_24_bits_exec(x * 0x100_0000_0000, 1000);
        scaled / 0x100_0000_0000
    }
}

/// The number that `{}` prints for the single-precision whole number `v`, as
/// `display_single` says.
fn displayed_single(v: u128) -> (r: u128)
    requires
        v < 100_000_000_000_000_000_000_000_000_000,
    ensures
        r == display_single(v as nat),
{
    if v < 0x100_0000 {
        return v;
    }
    let b = bit_length(v);
    proof {
        lemma2_to64();
        lemma_bit_len_bounds(v as nat, 24);
        lemma_bit_len(v as nat);
    }
    let u = power_of_two(b - 24);
    proof {
        lemma_pow2_adds((b - 24) as nat, 23);
        vstd::arithmetic::power2::lemma_pow2_pos((b - 24) as nat);
        assert(u * 0x80_0000 <= v);
    }
    let below: u128 = if v == 0x80_0000 * u { u } else { 2 * u };
    let above: u128 = 2 * u;
    let inclusive = (v / u) % 2 == 0;
    let mut k: u32 = 30;
    let mut p: u128 = 1_000_000_000_000_000_000_000_000_000_000;
    proof {
        reveal_with_fuel(pow10, 31);
        assert(pow10(30) == 1_000_000_000_000_000_000_000_000_000_000);
    }
    loop
        invariant
            k <= 30,
            p == pow10(k as nat),
            p <= 1_000_000_000_000_000_000_000_000_000_000,
            v < 100_000_000_000_000_000_000_000_000_000,
            below <= v,
            above <= 2 * v,
            v >= 0x100_0000,
            display_single(v as nat) == shortest_within(v as nat, k as nat, below as nat, above as nat, inclusive),
        decreases k,
    {
        proof {
            assert(p >= 1) by {
                lemma_pow10_pos(k as nat);
            }
            assert((v / p) * p <= v && v - (v / p) * p < p) by (nonlinear_arith)
                requires p >= 1;
        }
        let down = v / p * p;
        let up = down + p;
        let down_in = if inclusive { 4 * (v - down) <= below } else { 4 * (v - down) < below };
        let up_in = if inclusive { 4 * (up - v) <= above } else { 4 * (up - v) < above };
        if up_in && (!down_in || up - v < v - down) {
            return up;
        }
        if down_in || k == 0 {
            return down;
        }
        k = k - 1;
        p = p / 10;
    }
}

/// Powers of ten are positive.
proof fn lemma_pow10_pos(k: nat)
    ensures
        pow10(k) >= 1,
    decreases k,
{
    if k > 0 {
        lemma_pow10_pos((k - 1) as nat);
    }
}

/// The whole milliseconds of a duration, as `Duration::as_millis` gives them.
pub uninterp spec fn duration_millis(d: Duration) -> u128;

/// Calls `std::time::Duration::as_millis`, whose result is determined by the duration:
/// named `duration_millis`. It is the whole milliseconds of a duration of at most
/// `u64::MAX` seconds (`as_secs` is a `u64`) and less than a second more (`subsec_nanos`
/// is below a billion), so at most `MAX_DURATION_MILLIS`.
#[verifier::external_body]
fn as_millis(d: &Duration) -> (r: u128)
    ensures
        r == duration_millis(*d),
        r <= MAX_DURATION_MILLIS,
{
    d.as_millis()
}

/// Appends one decimal digit.
fn push_digit(s: &mut String, d: u128)
    requires
        d < 10,
    ensures
        final(s)@ == old(s)@.push(digit_char(d as nat)),
{
    let text = if d == 0 { "0" } else if d == 1 { "1" } else if d == 2 { "2" } else if d == 3 { "3" } else if d == 4 { "4" }
        else if d == 5 { "5" } else if d == 6 { "6" } else if d == 7 { "7" } else if d == 8 { "8" } else { "9" };
    proof {
        reveal_strlit("0");
        reveal_strlit("1");
        reveal_strlit("2");
        reveal_strlit("3");
        reveal_strlit("4");
        reveal_strlit("5");
        reveal_strlit("6");
        reveal_strlit("7");
        reveal_strlit("8");
        reveal_strlit("9");
    }
    s.append(text);
    assert(text@ =~= seq![digit_char(d as nat)]);
}

/// Appends the decimal digits of `n`.
fn push_decimal(s: &mut String, n: u128)
    ensures
        final(s)@ == old(s)@ + decimal(n as nat),
    decreases n,
{
    if n >= 10 {
        push_decimal(s, n / 10);
        push_digit(s, n % 10);
        assert(old(s)@ + decimal((n / 10) as nat) + seq![digit_char((n % 10) as nat)] =~= old(s)@ + decimal(n as nat));
    } else {
        push_digit(s, n);
        assert(old(s)@.push(digit_char(n as nat)) =~= old(s)@ + decimal(n as nat));
    }
}

/// One, two, or three and more digits.
proof fn lemma_decimal_len(n: nat)
    ensures
        n < 10 ==> decimal(n).len() == 1,
        10 <= n < 100 ==> decimal(n).len() == 2,
        100 <= n ==> decimal(n).len() >= 3,
    decreases n,
{
    if n >= 10 {
        lemma_decimal_len(n / 10);
    }
}

/// Appends the decimal digits of `n`, with zeros in front up to `width` (at most 3)
/// characters.
fn push_padded(s: &mut String, n: u128, width: usize)
    requires
        width <= 3,
    ensures
        final(s)@ == old(s)@ + zero_padded(decimal(n as nat), width as nat),
{
    proof {
        lemma_decimal_len(n as nat);
    }
    let digits: usize = if n < 10 { 1 } else if n < 100 { 2 } else { 3 };
    let pad: usize = if digits < width { width - digits } else { 0 };
    let mut k: usize = 0;
    while k < pad
        invariant
            k <= pad,
            s@ == old(s)@ + Seq::new(k as nat, |i: int| '0'),
        decreases pad - k,
    {
        s.append("0");
        proof {
            reveal_strlit("0");
            assert(Seq::new(k as nat, |i: int| '0') + seq!['0'] =~= Seq::new((k + 1) as nat, |i: int| '0'));
        }
        k = k + 1;
    }
    push_decimal(s, n);
    proof {
        if pad == 0 {
            assert(Seq::new(0 as nat, |i: int| '0') =~= Seq::<char>::empty());
            assert(zero_padded(decimal(n as nat), width as nat) == decimal(n as nat));
            assert(old(s)@ + Seq::<char>::empty() =~= old(s)@);
        } else {
            assert(zero_padded(decimal(n as nat), width as nat)
                =~= Seq::new(pad as nat, |i: int| '0') + decimal(n as nat));
        }
        assert(old(s)@ + Seq::new(pad as nat, |i: int| '0') + decimal(n as nat)
            =~= old(s)@ + zero_padded(decimal(n as nat), width as nat));
    }
}

/// The text of an elapsed time of `millis` milliseconds, as `elapsed_text` says.
pub fn format_elapsed_millis(millis: u128) -> (r: String)
    requires
        millis <= MAX_DURATION_MILLIS,
    ensures
        r@ == elapsed_text(millis as nat),
{
    let mut s = String::new();
    let seconds = displayed_single(whole_single_seconds(millis));
    push_padded(&mut s, seconds, 2);
    s.append(":");
    proof {
        reveal_strlit(":");
    }
    push_padded(&mut s, millis % 1000, 3);
    assert(s@ =~= elapsed_text(millis as nat));
    s
}

/// The text of an elapsed time, from its whole milliseconds: for instance 12 s and 34 ms
/// give `12:034`. The seconds go through single precision, so from 2^24 ms on they are
/// rounded: 16 777 999 ms give `16778:999`. From 2^25 s on (about 388 days) they are shown
/// as `{}` shows a single-precision number, by its shortest digits: 2^35 s show as
/// `34359740000`.
pub fn time(elapsed: Duration) -> (r: String)
    ensures
        r@ == elapsed_text(duration_millis(elapsed) as nat),
{
    let millis = as_millis(&elapsed);
    format_elapsed_millis(millis)
}

} // verus!
