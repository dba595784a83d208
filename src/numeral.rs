//! Decimal numerals for integers and fixed-point numbers.

use vstd::prelude::*;
use crate::hours::pow10;
use crate::text::push_char;

verus! {

pub open spec fn digit_char_of(d: nat) -> char {
    ((48 + d) as u8) as char
}

/// The decimal digits of `n`, padded with leading zeros to at least `width` characters.
pub open spec fn padded_digits(n: nat, width: nat) -> Seq<char>
    decreases n, width,
{
    if n < 10 && width <= 1 {
        seq![digit_char_of(n)]
    } else {
        padded_digits(n / 10, if width > 0 {
            (width - 1) as nat
        } else {
            0
        }).push(digit_char_of(n % 10))
    }
}

/// `s` without its trailing zero characters.
pub open spec fn trim_zeros(s: Seq<char>) -> Seq<char>
    decreases s.len(),
{
    if s.len() > 0 && s.last() == '0' {
        trim_zeros(s.drop_last())
    } else {
        s
    }
}

pub open spec fn abs(v: int) -> nat {
    if v < 0 {
        (-v) as nat
    } else {
        v as nat
    }
}

/// The numeral of `v / 10^places`: a sign when negative, the whole part, and the
/// fractional digits without trailing zeros (no point when there are none).
pub open spec fn decimal_text(v: int, places: nat) -> Seq<char> {
    let whole = abs(v) / pow10(places);
    let frac = abs(v) % pow10(places);
    let sign = if v < 0 {
        seq!['-']
    } else {
        Seq::empty()
    };
    let tail = if frac == 0 {
        Seq::empty()
    } else {
        seq!['.'] + trim_zeros(padded_digits(frac, places))
    };
    sign + padded_digits(whole, 1) + tail
}

/// Appends the digits of `n`, padded with zeros to `width` characters.
pub fn push_digits(out: &mut String, n: u64, width: u32)
    ensures
        final(out)@ == old(out)@ + padded_digits(n as nat, width as nat),
    decreases n, width,
{
    if n < 10 && width <= 1 {
        push_char(out, (48u8 + n as u8) as char);
        assert(old(out)@ + padded_digits(n as nat, width as nat) =~= old(out)@.push(
            digit_char_of(n as nat),
        ));
    } else {
        let w: u32 = if width > 0 {
            width - 1
        } else {
            0
        };
        push_digits(out, n / 10, w);
        push_char(out, (48u8 + (n % 10) as u8) as char);
        assert(final(out)@ =~= old(out)@ + padded_digits(n as nat, width as nat));
    }
}

proof fn lemma_trim_padded(f: nat, p: nat)
    requires
        0 < f < pow10(p),
    ensures
        f % 10 == 0 ==> p > 0 && f / 10 < pow10((p - 1) as nat) && trim_zeros(
            padded_digits(f, p),
        ) == trim_zeros(padded_digits(f / 10, (p - 1) as nat)),
        f % 10 != 0 ==> trim_zeros(padded_digits(f, p)) == padded_digits(f, p),
{
    reveal_with_fuel(padded_digits, 2);
    if f % 10 == 0 {
        assert(f >= 10);
        assert(p > 0);
        let q = pow10((p - 1) as nat);
        assert(f / 10 < q) by (nonlinear_arith)
            requires
                f < 10 * q,
        {
        }
        assert(padded_digits(f, p).drop_last() =~= padded_digits(f / 10, (p - 1) as nat));
    }
}

/// The numeral of `v / 10^places`, without trailing fractional zeros.
pub fn decimal_string(v: i64, places: u32) -> (s: String)
    requires
        places <= 9,
    ensures
        s@ == decimal_text(v as int, places as nat),
{
    let m: u64 = if v < 0 {
        (0 - (v as i128)) as u64
    } else {
        v as u64
    };
    let mut unit: u64 = 1;
    let mut i: u32 = 0;
    while i < places
        invariant
            i <= places <= 9,
            unit == pow10(i as nat),
            1 <= unit <= 1_000_000_000,
        decreases places - i,
    {
        assert(pow10(i as nat) <= 100_000_000) by {
            reveal_with_fuel(pow10, 10);
            assert(i < 9);
        }
        unit = unit * 10;
        i = i + 1;
    }
    let whole = m / unit;
    let mut frac = m % unit;
    let mut s = String::new();
    if v < 0 {
        push_char(&mut s, '-');
    }
    push_digits(&mut s, whole, 1);
    let ghost head = s@;
    let ghost sign = if v < 0 {
        seq!['-']
    } else {
        Seq::<char>::empty()
    };
    assert(head =~= sign + padded_digits(abs(v as int) / pow10(places as nat), 1));
    if frac != 0 {
        push_char(&mut s, '.');
        let mut p: u32 = places;
        while frac % 10 == 0
            invariant
                0 < frac < pow10(p as nat),
                p <= places,
                trim_zeros(padded_digits(frac as nat, p as nat)) == trim_zeros(
                    padded_digits((m % unit) as nat, places as nat),
                ),
            decreases frac,
        {
            proof {
                lemma_trim_padded(frac as nat, p as nat);
            }
            frac = frac / 10;
            p = p - 1;
        }
        proof {
            lemma_trim_padded(frac as nat, p as nat);
        }
        push_digits(&mut s, frac, p);
        assert(s@ =~= head + (seq!['.'] + trim_zeros(
            padded_digits((m % unit) as nat, places as nat),
        )));
    } else {
        assert(s@ =~= head + Seq::<char>::empty());
    }
    s
}

} // verus!
