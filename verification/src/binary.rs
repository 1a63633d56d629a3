//! Numbers of 53 significant bits: sizes in words, and decimal notation, are
//! read and written to that precision.

use crate::number;
use vstd::arithmetic::div_mod;
use vstd::arithmetic::power;
use vstd::prelude::*;

verus! {

/// The distance between neighbouring numbers of 53 significant bits, at `n`.
pub open spec fn spacing(n: nat) -> nat
    decreases n,
{
    if n < 0x20_0000_0000_0000 {
        1
    } else {
        2 * spacing(n / 2)
    }
}

/// `n` over `unit`, rounded half to even.
pub open spec fn rounded(n: nat, unit: nat) -> nat {
    let rest = n % unit;
    if 2 * rest > unit || (2 * rest == unit && (n / unit) % 2 == 1) {
        n / unit + 1
    } else {
        n / unit
    }
}

/// The number of 53 significant bits that is nearest to `n`.
pub open spec fn nearest(n: nat) -> nat {
    rounded(n, spacing(n)) * spacing(n)
}

fn spacing_of(n: u64) -> (r: u128)
    ensures
        r == spacing(n as nat),
        r == 1 || 1 <= r <= n,
    decreases n,
{
    if n < 0x20_0000_0000_0000 {
        1
    } else {
        2 * spacing_of(n / 2)
    }
}

/// `n` over `unit`, rounded half to even.
pub fn round_to(n: u128, unit: u128) -> (r: u128)
    requires
        1 <= unit <= 0x1_0000_0000_0000_0000,
        n <= 0x1000_0000_0000_0000_0000,
    ensures
        r == rounded(n as nat, unit as nat),
        r <= n + 1,
{
    let rest = n % unit;
    let whole = n / unit;
    assert(whole <= n) by (nonlinear_arith)
        requires
            whole == n / unit,
            unit >= 1,
            n >= 0,
    ;
    if 2 * rest > unit || (2 * rest == unit && whole % 2 == 1) {
        whole + 1
    } else {
        whole
    }
}

/// The number of 53 significant bits that is nearest to `n`.
pub fn nearest_to(n: u64) -> (r: u128)
    ensures
        r == nearest(n as nat),
        r <= 2 * n + 1,
{
    let gap = spacing_of(n);
    let units = round_to(n as u128, gap);
    assert(units * gap <= n + gap) by (nonlinear_arith)
        requires
            gap >= 1,
            units <= n as u128 / gap + 1,
            n >= 0,
    ;
    units * gap
}

/// A number of digits is that of its first digit and that of the others.
pub proof fn lemma_value_first(s: Seq<char>)
    requires
        s.len() > 0,
        number::only_digits(s),
    ensures
        number::value(s) == (s[0] as int - 48) * power::pow(10, (s.len() - 1) as nat)
            + number::value(s.drop_first()),
    decreases s.len(),
{
    reveal(power::pow);
    if s.len() == 1 {
        assert(s.drop_first() =~= Seq::<char>::empty());
        assert(s.drop_last() =~= Seq::<char>::empty());
        assert(number::value(s.drop_last()) == 0);
        assert(power::pow(10, 0) == 1);
    } else {
        lemma_value_first(s.drop_last());
        assert(s.drop_last().drop_first() =~= s.drop_first().drop_last());
        let p = power::pow(10, (s.len() - 2) as nat);
        assert(power::pow(10, (s.len() - 1) as nat) == 10 * p);
        let d = s[0] as int - 48;
        assert(d * p * 10 == d * (10 * p)) by (nonlinear_arith);
    }
}


/// How many binary places a number below 2^52 is to be written with, so that it
/// has 53 significant bits.
pub open spec fn binary_places(a: nat, b: nat) -> nat
    decreases 0x20_0000_0000_0000 * b - a,
{
    if a == 0 || b == 0 || a / b >= 0x10_0000_0000_0000 {
        0
    } else {
        proof {
            lemma_below(a, b, 0x10_0000_0000_0000);
        }
        1 + binary_places(2 * a, b)
    }
}

/// The number of 53 significant bits that is nearest to `a / b`, times `mult`,
/// rounded down.
pub open spec fn product(a: nat, b: nat, mult: nat) -> nat {
    let n = a / b;
    if n >= 0x20_0000_0000_0000 {
        rounded(a, b * spacing(n)) * spacing(n) * mult
    } else {
        let places = binary_places(a, b);
        (rounded(a * power::pow(2, places) as nat, b) * mult) / (power::pow(2, places) as nat)
    }
}

pub proof fn lemma_below(a: nat, b: nat, n: nat)
    requires
        b > 0,
        a / b < n,
    ensures
        a < n * b,
{
    div_mod::lemma_fundamental_div_mod(a as int, b as int);
    assert(a < n * b) by (nonlinear_arith)
        requires
            a == b * (a / b) + a % b,
            a % b < b,
            a / b <= n - 1,
            b > 0,
    ;
}

// -- digits ------------------------------------------------------------------------------

/// The number of the first `n` digits, the least significant first.
pub open spec fn digits_value(v: Seq<u8>, n: int) -> int
    decreases n,
{
    if n <= 0 {
        0
    } else {
        digits_value(v, n - 1) + v[n - 1] * power::pow(10, (n - 1) as nat)
    }
}

/// Every digit is one.
pub open spec fn are_digits(v: Seq<u8>) -> bool {
    forall|i: int| 0 <= i < v.len() ==> #[trigger] v[i] <= 9
}

proof fn lemma_same_digits(v: Seq<u8>, w: Seq<u8>, n: int)
    requires
        n <= v.len(),
        n <= w.len(),
        forall|i: int| 0 <= i < n ==> v[i] == w[i],
    ensures
        digits_value(v, n) == digits_value(w, n),
    decreases n,
{
    if n > 0 {
        lemma_same_digits(v, w, n - 1);
    }
}

proof fn lemma_digits_bound(v: Seq<u8>, n: int)
    requires
        are_digits(v),
        0 <= n <= v.len(),
    ensures
        0 <= digits_value(v, n) < power::pow(10, n as nat),
    decreases n,
{
    reveal(power::pow);
    if n > 0 {
        lemma_digits_bound(v, n - 1);
        let p = power::pow(10, (n - 1) as nat);
        assert(0 <= v[n - 1] * p <= 9 * p) by (nonlinear_arith)
            requires
                0 <= v[n - 1] <= 9,
                p > 0,
        ;
        assert(power::pow(10, n as nat) == 10 * p);
    }
}

/// The digits of a text, the least significant first.
fn reversed_digits(s: &[char]) -> (r: Vec<u8>)
    requires
        number::only_digits(s@),
    ensures
        r@.len() == s@.len(),
        are_digits(r@),
        digits_value(r@, r@.len() as int) == number::value(s@),
{
    let mut r: Vec<u8> = Vec::new();
    let mut k = s.len();
    assert(s@.skip(k as int) =~= Seq::<char>::empty());
    while k > 0
        invariant
            k <= s@.len(),
            number::only_digits(s@),
            r@.len() == s@.len() - k,
            are_digits(r@),
            digits_value(r@, r@.len() as int) == number::value(s@.skip(k as int)),
        decreases k,
    {
        let ghost t = s@.skip(k - 1);
        let ghost was = r@;
        assert('0' <= s@[k - 1] <= '9');
        proof {
            assert(t.drop_first() =~= s@.skip(k as int));
            assert(number::only_digits(t)) by {
                assert forall|i: int| 0 <= i < t.len() implies '0' <= #[trigger] t[i] <= '9' by {
                    assert(t[i] == s@[k - 1 + i]);
                }
            }
            lemma_value_first(t);
        }
        r.push(s[k - 1] as u8 - 48);
        proof {
            lemma_same_digits(was, r@, was.len() as int);
        }
        k = k - 1;
    }
    assert(s@.skip(0) =~= s@);
    r
}

/// Twice a number of digits: the digits, and what is carried over.
fn doubled(v: &Vec<u8>) -> (r: (Vec<u8>, u64))
    requires
        are_digits(v@),
    ensures
        r.0@.len() == v@.len(),
        are_digits(r.0@),
        r.1 <= 1,
        digits_value(r.0@, r.0@.len() as int) + r.1 * power::pow(10, v@.len()) == 2 * digits_value(
            v@,
            v@.len() as int,
        ),
{
    let mut out: Vec<u8> = Vec::new();
    let mut carry: u8 = 0;
    proof {
        reveal(power::pow);
    }
    for i in 0..v.len()
        invariant
            are_digits(v@),
            are_digits(out@),
            out@.len() == i,
            carry <= 1,
            digits_value(out@, i as int) + carry * power::pow(10, i as nat) == 2 * digits_value(
                v@,
                i as int,
            ),
    {
        let ghost was = out@;
        let ghost before = carry;
        assert(v@[i as int] <= 9);
        let twice: u8 = 2 * v[i] + carry;
        let digit: u8 = if twice >= 10 {
            twice - 10
        } else {
            twice
        };
        carry =
        if twice >= 10 {
            1
        } else {
            0
        };
        out.push(digit);
        proof {
            reveal(power::pow);
            lemma_same_digits(was, out@, i as int);
            let p = power::pow(10, i as nat);
            assert(power::pow(10, (i + 1) as nat) == 10 * p);
            assert(digit * p + carry * (10 * p) == 2 * (v@[i as int] * p) + before * p)
                by (nonlinear_arith)
                requires
                    digit + 10 * carry == 2 * v@[i as int] + before,
            ;
        }
    }
    (out, carry as u64)
}

/// Whether a number of digits is zero.
fn is_zero(v: &Vec<u8>) -> (r: bool)
    requires
        are_digits(v@),
    ensures
        r == (digits_value(v@, v@.len() as int) == 0),
{
    for i in 0..v.len()
        invariant
            are_digits(v@),
            digits_value(v@, i as int) == 0,
    {
        if v[i] != 0 {
            proof {
                lemma_some_digit(v@, i as int, v@.len() as int);
            }
            return false;
        }
        assert(0 * power::pow(10, i as nat) == 0) by (nonlinear_arith);
    }
    true
}

proof fn lemma_some_digit(v: Seq<u8>, k: int, n: int)
    requires
        are_digits(v),
        0 <= k < n <= v.len(),
        v[k] > 0,
    ensures
        digits_value(v, n) > 0,
    decreases n,
{
    let p = power::pow(10, (n - 1) as nat);
    power::lemma_pow_positive(10, (n - 1) as nat);
    lemma_digits_bound(v, n - 1);
    assert(v[n - 1] * p >= 0) by (nonlinear_arith)
        requires
            v[n - 1] >= 0,
            p > 0,
    ;
    if k < n - 1 {
        lemma_some_digit(v, k, n - 1);
    } else {
        assert(v[n - 1] * p > 0) by (nonlinear_arith)
            requires
                v[n - 1] > 0,
                p > 0,
        ;
    }
}

// -- decimal notation --------------------------------------------------------------------

/// A number, given by its digits before and after the point, read to 53
/// significant bits, times `mult`, rounded down.
pub open spec fn decimal_product(whole: Seq<char>, fraction: Seq<char>, mult: nat) -> nat {
    let b = power::pow(10, fraction.len()) as nat;
    product(number::value(whole) * b + number::value(fraction), b, mult)
}

proof fn lemma_spacing(n: nat)
    ensures
        spacing(n) >= 1,
        n >= 0x20_0000_0000_0000 ==> spacing(n) % 2 == 0 && n / spacing(n) >= 0x10_0000_0000_0000,
        n >= 0x1_0000_0000_0000_0000 ==> spacing(n) >= 0x1000,
    decreases n,
{
    if n >= 0x20_0000_0000_0000 {
        lemma_spacing(n / 2);
        div_mod::lemma_div_denominator(n as int, 2, spacing(n / 2) as int);
        if n / 2 < 0x20_0000_0000_0000 {
            assert(spacing(n) == 2);
        }
        if n >= 0x1_0000_0000_0000_0000 {
            lemma_large_spacing(n);
        }
    }
}

proof fn lemma_large_spacing(n: nat)
    requires
        n >= 0x1_0000_0000_0000_0000,
    ensures
        spacing(n) >= 0x1000,
{
    reveal_with_fuel(spacing, 13);
    lemma_some_spacing(n / 2 / 2 / 2 / 2 / 2 / 2 / 2 / 2 / 2 / 2 / 2 / 2);
}

proof fn lemma_some_spacing(n: nat)
    ensures
        spacing(n) >= 1,
    decreases n,
{
    if n >= 0x20_0000_0000_0000 {
        lemma_some_spacing(n / 2);
    }
}

/// A fraction only tells when the whole number lies halfway.
proof fn lemma_rounded(w: nat, b: nat, d: nat, unit: nat)
    requires
        d < b,
        unit > 0,
        unit % 2 == 0,
    ensures
        rounded(w * b + d, b * unit) == if 2 * (w % unit) > unit || (2 * (w % unit) == unit && (d > 0
            || (w / unit) % 2 == 1)) {
            w / unit + 1
        } else {
            w / unit
        },
{
    let q = (w / unit) as int;
    let r = (w % unit) as int;
    let a = w * b + d;
    let big = b * unit;
    div_mod::lemma_fundamental_div_mod(w as int, unit as int);
    assert(a == q * big + (r * b + d)) by (nonlinear_arith)
        requires
            a == w * b + d,
            w == unit * q + r,
            big == b * unit,
    ;
    assert(0 <= r * b + d < big) by (nonlinear_arith)
        requires
            0 <= r <= unit - 1,
            0 <= d < b,
            big == b * unit,
    ;
    div_mod::lemma_fundamental_div_mod_converse(a as int, big as int, q, r * b + d);
    if 2 * r > unit {
        assert(2 * (r * b + d) > big) by (nonlinear_arith)
            requires
                2 * r >= unit + 1,
                0 <= d < b,
                big == b * unit,
        ;
    } else if 2 * r == unit {
        assert(2 * (r * b) == big) by (nonlinear_arith)
            requires
                2 * r == unit,
                big == b * unit,
        ;
    } else {
        assert(2 * (r * b + d) < big) by (nonlinear_arith)
            requires
                2 * r <= unit - 2,
                0 <= d < b,
                big == b * unit,
        ;
    }
}

/// The number of a text of digits, but no more than 2^64.
fn capped_value(s: &[char]) -> (r: u128)
    requires
        number::only_digits(s@),
    ensures
        r == if number::value(s@) > 0x1_0000_0000_0000_0000 {
            0x1_0000_0000_0000_0000
        } else {
            number::value(s@)
        },
{
    let mut acc: u128 = 0;
    for i in 0..s.len()
        invariant
            number::only_digits(s@),
            acc == if number::value(s@.take(i as int)) > 0x1_0000_0000_0000_0000 {
                0x1_0000_0000_0000_0000
            } else {
                number::value(s@.take(i as int))
            },
    {
        assert('0' <= s@[i as int] <= '9');
        assert(s@.take(i + 1).drop_last() =~= s@.take(i as int));
        let next: u128 = acc * 10 + (s[i] as u8 - 48) as u128;
        acc =
        if next > 0x1_0000_0000_0000_0000 {
            0x1_0000_0000_0000_0000
        } else {
            next
        };
    }
    assert(s@.take(s@.len() as int) =~= s@);
    acc
}

proof fn lemma_power_of_two()
    ensures
        power::pow(2, 84) == 0x10_0000_0000_0000_0000_0000,
{
    assert(power::pow(2, 21) == 0x20_0000) by {
        reveal(power::pow);
        reveal_with_fuel(power::pow, 22);
    }
    let p = power::pow(2, 21);
    let q = power::pow(2, 42);
    power::lemma_pow_adds(2, 21, 21);
    power::lemma_pow_adds(2, 42, 42);
    assert(p * p == 0x400_0000_0000) by (nonlinear_arith)
        requires
            p == 0x20_0000,
    ;
    assert(q * q == 0x10_0000_0000_0000_0000_0000) by (nonlinear_arith)
        requires
            q == 0x400_0000_0000,
    ;
}

/// A number below 2^53 stays below when it is written in binary places.
proof fn lemma_binary_places(a: nat, b: nat)
    requires
        b > 0,
        a / b < 0x20_0000_0000_0000,
    ensures
        (a * power::pow(2, binary_places(a, b))) / b as int <= 0x1f_ffff_ffff_ffff,
    decreases 0x20_0000_0000_0000 * b - a,
{
    reveal(power::pow);
    if a == 0 || a / b >= 0x10_0000_0000_0000 {
        assert(a * 1 == a);
    } else {
        lemma_below(a, b, 0x10_0000_0000_0000);
        assert((2 * a) / b < 0x20_0000_0000_0000) by (nonlinear_arith)
            requires
                a < 0x10_0000_0000_0000 * b,
                b > 0,
        ;
        lemma_binary_places(2 * a, b);
        let p = power::pow(2, binary_places(2 * a, b));
        assert(a * (2 * p) == (2 * a) * p) by (nonlinear_arith);
    }
}

/// What needs so many places is less than one, even times `mult`.
proof fn lemma_tiny(a: nat, b: nat, mult: nat)
    requires
        b > 0,
        a / b < 0x20_0000_0000_0000,
        binary_places(a, b) >= 84,
        mult <= 0x4000_0000,
    ensures
        product(a, b, mult) == 0,
{
    let places = binary_places(a, b);
    let p = power::pow(2, places);
    lemma_binary_places(a, b);
    lemma_power_of_two();
    power::lemma_pow_increases(2, 84, places);
    let r = rounded((a * p) as nat, b);
    assert(r <= 0x20_0000_0000_0000);
    assert(r * mult < p) by (nonlinear_arith)
        requires
            r <= 0x20_0000_0000_0000,
            mult <= 0x4000_0000,
            p >= 0x10_0000_0000_0000_0000_0000,
    ;
    assert(a * p >= 0) by (nonlinear_arith)
        requires
            a >= 0,
            p >= 0,
    ;
    div_mod::lemma_basic_div((r * mult) as int, p);
    assert(a * (p as nat) == (a * p) as nat);
}

/// A number below 2^53 that is not zero, given by its whole part and its digits
/// after the point: the nearest number of 53 significant bits, times `mult`,
/// rounded down.
fn small_product(w: u64, digits: Vec<u8>, mult: u64) -> (r: u128)
    requires
        w < 0x20_0000_0000_0000,
        are_digits(digits@),
        w > 0 || digits_value(digits@, digits@.len() as int) > 0,
        1 <= mult <= 0x4000_0000,
    ensures
        ({
            let b = power::pow(10, digits@.len()) as nat;
            r == product(
                (w * b + digits_value(digits@, digits@.len() as int)) as nat,
                b,
                mult as nat,
            )
        }),
{
    let ghost n = digits@.len();
    let ghost b = power::pow(10, n) as nat;
    let ghost a = (w * b + digits_value(digits@, n as int)) as nat;
    let mut d = digits;
    let mut i: u64 = w;
    let mut places: u32 = 0;
    let mut p: u128 = 1;
    proof {
        power::lemma_pow_positive(10, n);
        lemma_digits_bound(digits@, n as int);
        reveal(power::pow);
        assert(w * b >= 0 && (w > 0 ==> w * b > 0)) by (nonlinear_arith)
            requires
                w >= 0,
                b > 0,
        ;
        div_mod::lemma_fundamental_div_mod_converse(
            a as int,
            b as int,
            w as int,
            digits_value(digits@, n as int),
        );
        assert(a * 1 == a);
    }
    while i < 0x10_0000_0000_0000 && places < 84
        invariant
            places <= 84,
            i < 0x20_0000_0000_0000,
            b == power::pow(10, n),
            b > 0,
            a > 0,
            a / b < 0x20_0000_0000_0000,
            d@.len() == n,
            are_digits(d@),
            p == power::pow(2, places as nat),
            a * power::pow(2, places as nat) == i * b + digits_value(d@, n as int),
            binary_places(a, b) == places + binary_places(
                (a * power::pow(2, places as nat)) as nat,
                b,
            ),
        decreases 84 - places,
    {
        let ghost before = d@;
        let ghost rest = digits_value(before, n as int);
        let ghost now = (a * power::pow(2, places as nat)) as nat;
        proof {
            lemma_digits_bound(before, n as int);
            assert(now == i * b + rest);
            div_mod::lemma_fundamental_div_mod_converse(now as int, b as int, i as int, rest);
            power::lemma_pow_positive(2, places as nat);
            assert(a * p > 0) by (nonlinear_arith)
                requires
                    a > 0,
                    p > 0,
            ;
            assert(binary_places(now, b) == 1 + binary_places(2 * now, b));
            lemma_power_of_two();
            power::lemma_pow_increases(2, places as nat, 84);
        }
        let (next, carry) = doubled(&d);
        d = next;
        i = 2 * i + carry;
        p = 2 * p;
        places = places + 1;
        proof {
            reveal(power::pow);
            assert(2 * now == i * b + digits_value(d@, n as int)) by (nonlinear_arith)
                requires
                    now == ((i - carry) / 2) * b + rest,
                    2 * ((i - carry) / 2) == i - carry,
                    digits_value(d@, n as int) + carry * b == 2 * rest,
            ;
            assert(a * p == 2 * now) by (nonlinear_arith)
                requires
                    now == a * (p / 2),
                    p == 2 * (p / 2),
            ;
        }
    }
    if i < 0x10_0000_0000_0000 {
        proof {
            lemma_tiny(a, b, mult as nat);
        }
        return 0;
    }
    let ghost rest = digits_value(d@, n as int);
    let ghost now = (a * power::pow(2, places as nat)) as nat;
    proof {
        lemma_digits_bound(d@, n as int);
        div_mod::lemma_fundamental_div_mod_converse(now as int, b as int, i as int, rest);
        assert(binary_places(now, b) == 0);
        power::lemma_pow_positive(2, places as nat);
    }
    let (twice, carry) = doubled(&d);
    proof {
        lemma_digits_bound(twice@, n as int);
        assert(carry * b == if carry == 1 {
            b as int
        } else {
            0
        });
    }
    let near: u64 = if carry == 1 && (!is_zero(&twice) || i % 2 == 1) {
        i + 1
    } else {
        i
    };
    assert(near == rounded(now, b));
    assert(near * mult <= 0x20_0000_0000_0000 * 0x4000_0000) by (nonlinear_arith)
        requires
            near <= 0x20_0000_0000_0000,
            mult <= 0x4000_0000,
    ;
    (near as u128 * mult as u128) / p
}

/// A number, given by its digits before and after the point, read to 53
/// significant bits, times `mult`, rounded down; at most what there can be.
pub fn times(whole: &[char], fraction: &[char], mult: u64) -> (r: u64)
    requires
        number::only_digits(whole@),
        number::only_digits(fraction@),
        1 <= mult <= 0x4000_0000,
    ensures
        r == if decimal_product(whole@, fraction@, mult as nat) > u64::MAX {
            u64::MAX as nat
        } else {
            decimal_product(whole@, fraction@, mult as nat)
        },
{
    let w = capped_value(whole);
    let digits = reversed_digits(fraction);
    let ghost n = fraction@.len();
    let ghost b = power::pow(10, n) as nat;
    let ghost rest = number::value(fraction@);
    let ghost exact = number::value(whole@);
    let ghost a = exact * b + rest;
    proof {
        power::lemma_pow_positive(10, n);
        lemma_digits_bound(digits@, n as int);
        assert(a == exact * b + rest);
        div_mod::lemma_fundamental_div_mod_converse(a as int, b as int, exact as int, rest as int);
        lemma_spacing(exact);
    }
    let all: u128 = if w >= 0x1_0000_0000_0000_0000 {
        proof {
            let unit = spacing(exact);
            lemma_rounded(exact, b, rest, unit);
            let units = rounded(a, b * unit);
            assert(units * unit * mult >= 0x1_0000_0000_0000_0000) by (nonlinear_arith)
                requires
                    units >= 0x10_0000_0000_0000,
                    unit >= 0x1000,
                    mult >= 1,
            ;
        }
        return u64::MAX;
    } else if w >= 0x20_0000_0000_0000 {
        let unit = spacing_of(w as u64);
        let lower = w / unit;
        let over = w % unit;
        let units: u128 = if 2 * over > unit || (2 * over == unit && (!is_zero(&digits) || lower % 2
            == 1)) {
            lower + 1
        } else {
            lower
        };
        proof {
            lemma_rounded(exact, b, rest, unit as nat);
            assert(units * unit <= w + unit) by (nonlinear_arith)
                requires
                    unit >= 1,
                    units <= w / unit + 1,
                    w >= 0,
            ;
            assert(units * unit * mult <= 0x2_0000_0000_0000_0000 * 0x4000_0000) by (nonlinear_arith)
                requires
                    0 <= units * unit <= 0x2_0000_0000_0000_0000,
                    mult <= 0x4000_0000,
            ;
        }
        units * unit * mult as u128
    } else if w == 0 && is_zero(&digits) {
        proof {
            assert(0 * b == 0);
            assert(a == 0);
            reveal(power::pow);
            assert(rounded(0, b) == 0) by {
                div_mod::lemma_fundamental_div_mod_converse(0, b as int, 0, 0);
            }
            assert(product(a, b, mult as nat) == 0) by {
                assert(binary_places(0, b) == 0);
                assert(power::pow(2, 0) == 1);
                assert(0 * power::pow(2, 0) as nat == 0);
                assert(0 * mult == 0);
                assert(0int / 1int == 0);
            }
        }
        0
    } else {
        small_product(w as u64, digits, mult)
    };
    if all > u64::MAX as u128 {
        u64::MAX
    } else {
        all as u64
    }
}

} // verus!
