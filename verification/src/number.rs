//! Decimal numbers as text.

use vstd::prelude::*;

verus! {

/// The decimal digit `d`.
pub open spec fn digit(d: int) -> char {
    (48 + d) as char
}

/// The decimal notation of a natural number, without leading zeros.
pub open spec fn dec(n: nat) -> Seq<char>
    decreases n,
{
    if n < 10 {
        seq![digit(n as int)]
    } else {
        dec(n / 10).push(digit((n % 10) as int))
    }
}

/// The decimal notation of an integer.
pub open spec fn dec_int(i: int) -> Seq<char> {
    if i < 0 {
        seq!['-'] + dec((-i) as nat)
    } else {
        dec(i as nat)
    }
}

/// A text of one or more decimal digits.
pub open spec fn is_digits(s: Seq<char>) -> bool {
    s.len() > 0 && forall|i: int| 0 <= i < s.len() ==> '0' <= #[trigger] s[i] <= '9'
}

/// The number that a text of decimal digits denotes.
pub open spec fn value(s: Seq<char>) -> nat
    decreases s.len(),
{
    if s.len() == 0 {
        0
    } else {
        value(s.drop_last()) * 10 + (s.last() as nat - 48) as nat
    }
}

/// The number that a text denotes as an unsigned integer of at most `max`:
/// digits, with at most one plus sign before them.
pub open spec fn unsigned(s: Seq<char>, max: nat) -> Option<nat> {
    let t = if s.len() > 0 && s[0] == '+' {
        s.drop_first()
    } else {
        s
    };
    if is_digits(t) && value(t) <= max {
        Some(value(t))
    } else {
        None
    }
}

/// The number that a text denotes as a 64-bit signed integer: digits, with at
/// most one sign before them.
pub open spec fn signed(s: Seq<char>) -> Option<int> {
    if s.len() > 0 && s[0] == '-' {
        if is_digits(s.drop_first()) && value(s.drop_first()) <= -(i64::MIN as int) {
            Some(-(value(s.drop_first()) as int))
        } else {
            None
        }
    } else {
        match unsigned(s, i64::MAX as nat) {
            Some(n) => Some(n as int),
            None => None,
        }
    }
}

/// What `dec` writes is digits, and denotes the number written.
pub proof fn lemma_dec(n: nat)
    ensures
        is_digits(dec(n)),
        value(dec(n)) == n,
    decreases n,
{
    if n < 10 {
        let d = seq![digit(n as int)];
        assert(d.drop_last() =~= Seq::<char>::empty());
        assert(value(d.drop_last()) == 0);
    } else {
        lemma_dec(n / 10);
        let d = dec(n / 10).push(digit((n % 10) as int));
        assert(d.drop_last() =~= dec(n / 10));
        assert forall|i: int| 0 <= i < d.len() implies '0' <= #[trigger] d[i] <= '9' by {
            if i < d.len() - 1 {
                assert(d[i] == dec(n / 10)[i]);
            }
        }
    }
}

/// Writing an integer and reading it back gives the integer.
pub proof fn law_written_integers_read_back(i: i64)
    ensures
        signed(dec_int(i as int)) == Some(i as int),
{
    if i < 0 {
        lemma_dec((-(i as int)) as nat);
        assert(dec_int(i as int).drop_first() =~= dec((-(i as int)) as nat));
    } else {
        lemma_dec(i as nat);
        assert('0' <= dec(i as nat)[0] <= '9');
    }
}

/// Different numbers are written differently.
pub proof fn law_notation_is_unique(m: nat, n: nat)
    requires
        dec(m) == dec(n),
    ensures
        m == n,
{
    lemma_dec(m);
    lemma_dec(n);
}

/// Appends the decimal notation of `n`.
pub fn push_number(out: &mut String, n: u64)
    ensures
        final(out)@ == old(out)@ + dec(n as nat),
    decreases n,
{
    let ghost start = out@;
    if n >= 10 {
        push_number(out, n / 10);
    }
    let d = (48u8 + (n % 10) as u8) as char;
    out.push(d);
    assert(out@ =~= start + dec(n as nat));
}

/// The decimal notation of `n`.
pub fn number_text(n: u64) -> (r: String)
    ensures
        r@ == dec(n as nat),
{
    let mut r = String::new();
    push_number(&mut r, n);
    assert(r@ =~= dec(n as nat));
    r
}

fn push_wide_number(out: &mut String, n: u128)
    ensures
        final(out)@ == old(out)@ + dec(n as nat),
    decreases n,
{
    let ghost start = out@;
    if n >= 10 {
        push_wide_number(out, n / 10);
    }
    let d = (48u8 + (n % 10) as u8) as char;
    out.push(d);
    assert(out@ =~= start + dec(n as nat));
}

/// The decimal notation of `n`.
pub fn wide_number_text(n: u128) -> (r: String)
    ensures
        r@ == dec(n as nat),
{
    let mut r = String::new();
    push_wide_number(&mut r, n);
    assert(r@ =~= dec(n as nat));
    r
}

/// The decimal notation of `i`.
pub fn integer_text(i: i64) -> (r: String)
    ensures
        r@ == dec_int(i as int),
{
    let mut r = String::new();
    if i < 0 {
        r.push('-');
        push_number(&mut r, (-(i as i128)) as u64);
        assert(r@ =~= dec_int(i as int));
    } else {
        push_number(&mut r, i as u64);
        assert(r@ =~= dec_int(i as int));
    }
    r
}

proof fn lemma_value_grows(s: Seq<char>, k: int)
    requires
        0 <= k <= s.len(),
    ensures
        value(s.take(k)) <= value(s),
    decreases s.len() - k,
{
    if k == s.len() {
        assert(s.take(k) =~= s);
    } else {
        lemma_value_grows(s, k + 1);
        assert(s.take(k + 1).drop_last() =~= s.take(k));
    }
}

/// The number that the digits of `s` from position `from` on denote, if there
/// are digits only, at least one, and the number fits.
fn parse_digits(s: &[char], from: usize) -> (r: Option<u64>)
    requires
        from <= s@.len(),
    ensures
        r is Some == (is_digits(s@.skip(from as int)) && value(s@.skip(from as int)) <= u64::MAX),
        r matches Some(n) ==> n == value(s@.skip(from as int)),
{
    let ghost t = s@.skip(from as int);
    if from == s.len() {
        return None;
    }
    let mut n: u64 = 0;
    let mut i = from;
    while i < s.len()
        invariant
            from <= i <= s@.len(),
            t == s@.skip(from as int),
            n == value(t.take(i - from)),
            forall|j: int| 0 <= j < i - from ==> '0' <= #[trigger] t[j] <= '9',
        decreases s@.len() - i,
    {
        let c = s[i];
        assert(c == t[i - from]);
        if c < '0' || c > '9' {
            return None;
        }
        let d = (c as u32 - 48) as u64;
        proof {
            assert(t.take(i - from + 1).drop_last() =~= t.take(i - from));
            assert(value(t.take(i - from + 1)) == n * 10 + d);
            lemma_value_grows(t, i - from + 1);
        }
        match n.checked_mul(10) {
            None => {
                return None;
            },
            Some(m) => match m.checked_add(d) {
                None => {
                    return None;
                },
                Some(k) => {
                    n = k;
                },
            },
        }
        i = i + 1;
    }
    assert(t.take(i - from) =~= t);
    Some(n)
}

/// The number that `s` denotes as an unsigned 64-bit integer.
pub fn parse_u64(s: &[char]) -> (r: Option<u64>)
    ensures
        r is Some == unsigned(s@, u64::MAX as nat) is Some,
        r matches Some(n) ==> unsigned(s@, u64::MAX as nat) == Some(n as nat),
{
    if s.len() > 0 && s[0] == '+' {
        assert(s@.skip(1) =~= s@.drop_first());
        parse_digits(s, 1)
    } else {
        assert(s@.skip(0) =~= s@);
        parse_digits(s, 0)
    }
}

/// The number that `s` denotes as an unsigned 32-bit integer.
pub fn parse_u32(s: &[char]) -> (r: Option<u32>)
    ensures
        r is Some == unsigned(s@, u32::MAX as nat) is Some,
        r matches Some(n) ==> unsigned(s@, u32::MAX as nat) == Some(n as nat),
{
    match parse_u64(s) {
        Some(n) => if n <= u32::MAX as u64 {
            Some(n as u32)
        } else {
            None
        },
        None => None,
    }
}

/// The number that `s` denotes as a signed 64-bit integer.
pub fn parse_i64(s: &[char]) -> (r: Option<i64>)
    ensures
        r is Some == signed(s@) is Some,
        r matches Some(n) ==> signed(s@) == Some(n as int),
{
    if s.len() > 0 && s[0] == '-' {
        assert(s@.skip(1) =~= s@.drop_first());
        match parse_digits(s, 1) {
            Some(n) => if n <= 0x8000_0000_0000_0000 {
                Some((-(n as i128)) as i64)
            } else {
                None
            },
            None => None,
        }
    } else {
        match parse_u64(s) {
            Some(n) => if n <= i64::MAX as u64 {
                Some(n as i64)
            } else {
                None
            },
            None => None,
        }
    }
}

/// Digits or nothing.
pub open spec fn only_digits(s: Seq<char>) -> bool {
    forall|i: int| 0 <= i < s.len() ==> '0' <= #[trigger] s[i] <= '9'
}

} // verus!
