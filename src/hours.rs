//! The hours counter: a decimal number held exactly, in billionths of an hour.

use vstd::prelude::*;
use crate::text::{chars_of, find_first, first_index_of, last_token, last_token_of, line_end};

verus! {

/// Billionths of an hour in one hour.
pub const NANOS_PER_HOUR: i64 = 1_000_000_000;

/// The largest magnitude of a counter, in billionths of an hour (a billion hours).
pub const MAX_NANOS: i64 = 1_000_000_000_000_000_000;

/// The ways a tracked-file snapshot can fail to give an hours value.
#[derive(PartialEq, Eq, Structural, Clone, Copy, Debug)]
pub enum HoursError {
    /// The snapshot has no first line at all.
    EmptyFile,
    /// The first line holds no token.
    NoValue,
    /// The last token of the first line is not a decimal number.
    NotANumber,
    /// The number has more than nine fractional digits or exceeds a billion hours.
    Unrepresentable,
}

pub open spec fn is_digit(c: char) -> bool {
    '0' as u32 <= c as u32 <= '9' as u32
}

pub open spec fn digit_value(c: char) -> nat {
    (c as u32 - '0' as u32) as nat
}

pub open spec fn all_digits(s: Seq<char>) -> bool {
    forall|i: int| 0 <= i < s.len() ==> is_digit(#[trigger] s[i])
}

/// The number that a string of decimal digits writes.
pub open spec fn digits_value(s: Seq<char>) -> nat
    decreases s.len(),
{
    if s.len() == 0 {
        0
    } else {
        digits_value(s.drop_last()) * 10 + digit_value(s.last())
    }
}

pub open spec fn pow10(n: nat) -> nat
    decreases n,
{
    if n == 0 {
        1
    } else {
        10 * pow10((n - 1) as nat)
    }
}

/// The length of the optional leading sign of `t`.
pub open spec fn sign_len(t: Seq<char>) -> int {
    if t.len() > 0 && (t[0] == '+' || t[0] == '-') {
        1
    } else {
        0
    }
}

pub open spec fn is_negative(t: Seq<char>) -> bool {
    t.len() > 0 && t[0] == '-'
}

/// The digits before the decimal point of the unsigned text `b`.
pub open spec fn int_digits(b: Seq<char>) -> Seq<char> {
    b.take(first_index_of(b, '.'))
}

/// The digits after the decimal point of the unsigned text `b` (none without a point).
pub open spec fn frac_digits(b: Seq<char>) -> Seq<char> {
    if first_index_of(b, '.') < b.len() {
        b.skip(first_index_of(b, '.') + 1)
    } else {
        Seq::empty()
    }
}

/// Whether `t` is a decimal number: an optional sign, digits, and optionally a point
/// followed by digits, with at least one digit in all.
pub open spec fn is_decimal(t: Seq<char>) -> bool {
    let b = t.skip(sign_len(t));
    &&& all_digits(int_digits(b))
    &&& all_digits(frac_digits(b))
    &&& int_digits(b).len() + frac_digits(b).len() > 0
}

/// The magnitude of the decimal number `t`, in billionths (at most nine fractional digits).
pub open spec fn magnitude_nanos(t: Seq<char>) -> int {
    let b = t.skip(sign_len(t));
    digits_value(int_digits(b)) * NANOS_PER_HOUR + digits_value(frac_digits(b)) * pow10(
        (9 - frac_digits(b).len()) as nat,
    )
}

/// The value of the token `t` in billionths of an hour.
pub open spec fn token_nanos(t: Seq<char>) -> Result<int, HoursError> {
    if !is_decimal(t) {
        Err(HoursError::NotANumber)
    } else if frac_digits(t.skip(sign_len(t))).len() > 9 || magnitude_nanos(t) > MAX_NANOS {
        Err(HoursError::Unrepresentable)
    } else if is_negative(t) {
        Ok(-magnitude_nanos(t))
    } else {
        Ok(magnitude_nanos(t))
    }
}

/// The hours recorded by a tracked-file snapshot: the last token of its first line.
pub open spec fn snapshot_nanos(content: Seq<char>) -> Result<int, HoursError> {
    if content.len() == 0 {
        Err(HoursError::EmptyFile)
    } else {
        match last_token(content.take(line_end(content))) {
            None => Err(HoursError::NoValue),
            Some(t) => token_nanos(t),
        }
    }
}

/// A recorded counter never exceeds a billion hours in magnitude.
pub proof fn lemma_snapshot_bounded(content: Seq<char>)
    ensures
        snapshot_nanos(content) matches Ok(h) ==> -MAX_NANOS <= h <= MAX_NANOS,
{
}

pub proof fn lemma_digits_value_bound(s: Seq<char>)
    requires
        all_digits(s),
    ensures
        digits_value(s) < pow10(s.len()),
    decreases s.len(),
{
    if s.len() > 0 {
        let p = s.drop_last();
        assert(all_digits(p)) by {
            assert forall|i: int| 0 <= i < p.len() implies is_digit(#[trigger] p[i]) by {
                assert(p[i] == s[i]);
            }
        }
        lemma_digits_value_bound(p);
        assert(is_digit(s[s.len() - 1]));
    }
}

fn digit_char(c: char) -> (r: bool)
    ensures
        r == is_digit(c),
{
    '0' <= c && c <= '9'
}

/// Whether `v[lo..hi]` holds decimal digits only.
fn digits_between(v: &Vec<char>, lo: usize, hi: usize) -> (r: bool)
    requires
        lo <= hi <= v.len(),
    ensures
        r == all_digits(v@.subrange(lo as int, hi as int)),
{
    let mut i: usize = lo;
    while i < hi
        invariant
            lo <= i <= hi <= v.len(),
            forall|j: int| lo <= j < i ==> is_digit(#[trigger] v@[j]),
        decreases hi - i,
    {
        if !digit_char(v[i]) {
            assert(!is_digit(v@.subrange(lo as int, hi as int)[i - lo]));
            return false;
        }
        i = i + 1;
    }
    assert forall|j: int| 0 <= j < hi - lo implies is_digit(
        #[trigger] v@.subrange(lo as int, hi as int)[j],
    ) by {
        assert(v@.subrange(lo as int, hi as int)[j] == v@[lo + j]);
    }
    true
}

/// The value of the digits `v[lo..hi]`, or `cap + 1` when it exceeds `cap`.
fn capped_value(v: &Vec<char>, lo: usize, hi: usize, cap: u64) -> (r: u64)
    requires
        lo <= hi <= v.len(),
        cap <= 1_000_000_000_000,
        all_digits(v@.subrange(lo as int, hi as int)),
    ensures
        r == if digits_value(v@.subrange(lo as int, hi as int)) > cap {
            cap + 1
        } else {
            digits_value(v@.subrange(lo as int, hi as int)) as int
        },
{
    let mut acc: u64 = 0;
    let mut i: usize = lo;
    while i < hi
        invariant
            lo <= i <= hi <= v.len(),
            cap <= 1_000_000_000_000,
            all_digits(v@.subrange(lo as int, hi as int)),
            acc == if digits_value(v@.subrange(lo as int, i as int)) > cap {
                cap + 1
            } else {
                digits_value(v@.subrange(lo as int, i as int)) as int
            },
        decreases hi - i,
    {
        let ghost before = v@.subrange(lo as int, i as int);
        let ghost after = v@.subrange(lo as int, i + 1);
        assert(after.drop_last() =~= before);
        assert(after.last() == v@.subrange(lo as int, hi as int)[i - lo]);
        let d = (v[i] as u32 - '0' as u32) as u64;
        if acc > cap {
            acc = cap + 1;
        } else {
            let next = acc * 10 + d;
            acc = if next > cap {
                cap + 1
            } else {
                next
            };
        }
        i = i + 1;
    }
    acc
}

fn pow10_of(n: u32) -> (r: u64)
    requires
        n <= 9,
    ensures
        r == pow10(n as nat),
        r <= 1_000_000_000,
{
    let mut r: u64 = 1;
    let mut i: u32 = 0;
    while i < n
        invariant
            i <= n <= 9,
            r == pow10(i as nat),
            r <= pow10(i as nat),
        decreases n - i,
    {
        assert(pow10((i + 1) as nat) == 10 * pow10(i as nat));
        assert(pow10(i as nat) <= 100_000_000) by {
            reveal_with_fuel(pow10, 10);
            assert(i < 9);
        }
        r = r * 10;
        i = i + 1;
    }
    assert(pow10(n as nat) <= 1_000_000_000) by {
        reveal_with_fuel(pow10, 10);
    }
    r
}

/// Reads a decimal token as billionths of an hour.
#[verifier::rlimit(60)]
pub fn parse_token(t: &Vec<char>) -> (r: Result<i64, HoursError>)
    ensures
        match r {
            Ok(n) => token_nanos(t@) == Ok::<int, HoursError>(n as int),
            Err(e) => token_nanos(t@) == Err::<int, HoursError>(e),
        },
{
    let s: usize = if t.len() > 0 && (t[0] == '+' || t[0] == '-') {
        1
    } else {
        0
    };
    let negative = t.len() > 0 && t[0] == '-';
    let mut b: Vec<char> = Vec::new();
    let mut i: usize = s;
    while i < t.len()
        invariant
            s <= i <= t.len(),
            b@ == t@.subrange(s as int, i as int),
        decreases t.len() - i,
    {
        b.push(t[i]);
        i = i + 1;
        assert(b@ =~= t@.subrange(s as int, i as int));
    }
    assert(b@ =~= t@.skip(sign_len(t@)));
    let d = find_first(&b, '.');
    let flo: usize = if d < b.len() {
        d + 1
    } else {
        b.len()
    };
    assert(int_digits(b@) =~= b@.subrange(0, d as int));
    assert(frac_digits(b@) =~= b@.subrange(flo as int, b.len() as int));
    if !digits_between(&b, 0, d) || !digits_between(&b, flo, b.len()) || (d == 0 && flo
        == b.len()) {
        return Err(HoursError::NotANumber);
    }
    let flen = b.len() - flo;
    if flen > 9 {
        return Err(HoursError::Unrepresentable);
    }
    let whole = capped_value(&b, 0, d, 1_000_000_000);
    let frac = capped_value(&b, flo, b.len(), 1_000_000_000);
    proof {
        lemma_digits_value_bound(frac_digits(b@));
        assert(pow10(flen as nat) <= 1_000_000_000) by {
            reveal_with_fuel(pow10, 10);
        }
    }
    if whole > 1_000_000_000 {
        assert(magnitude_nanos(t@) > MAX_NANOS) by (nonlinear_arith)
            requires
                magnitude_nanos(t@) >= digits_value(int_digits(b@)) * NANOS_PER_HOUR,
                digits_value(int_digits(b@)) > 1_000_000_000,
        {
        }
        return Err(HoursError::Unrepresentable);
    }
    let scale = pow10_of((9 - flen) as u32);
    assert(frac * scale <= 1_000_000_000 * 1_000_000_000) by (nonlinear_arith)
        requires
            frac <= 1_000_000_000,
            scale <= 1_000_000_000,
    {
    }
    let magnitude = whole * 1_000_000_000 + frac * scale;
    if magnitude > 1_000_000_000_000_000_000 {
        return Err(HoursError::Unrepresentable);
    }
    let m = magnitude as i64;
    if negative {
        Ok(-m)
    } else {
        Ok(m)
    }
}

/// Reads the hours that a tracked-file snapshot records, in billionths of an hour.
pub fn snapshot_hours(content: &str) -> (r: Result<i64, HoursError>)
    ensures
        match r {
            Ok(n) => snapshot_nanos(content@) == Ok::<int, HoursError>(n as int),
            Err(e) => snapshot_nanos(content@) == Err::<int, HoursError>(e),
        },
{
    let v = chars_of(content);
    if v.len() == 0 {
        return Err(HoursError::EmptyFile);
    }
    let e = find_first(&v, '\n');
    match last_token_of(&v, e) {
        None => Err(HoursError::NoValue),
        Some(t) => parse_token(&t),
    }
}

} // verus!
