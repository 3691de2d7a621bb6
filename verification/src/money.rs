//! Money is an integer count of cents. One credit is 100 cents.
use vstd::prelude::*;

verus! {

/// Cents per credit.
pub const CENTS: i64 = 100;

/// An amount of a society's money, in cents. Negative only in deltas.
#[derive(Clone, Copy, Debug, PartialEq, Eq, Structural)]
pub struct Money(pub i64);

impl Money {
    /// Zero cents.
    pub fn zero() -> (m: Money)
        ensures
            m.0 == 0,
    {
        Money(0)
    }

    /// An amount given in cents.
    pub fn cents(cents: i64) -> (m: Money)
        ensures
            m.0 == cents,
    {
        Money(cents)
    }

    /// Whole credits, no fractional part.
    pub fn credits(credits: i64) -> (m: Money)
        requires
            i64::MIN <= credits * 100 <= i64::MAX,
        ensures
            m.0 == credits * 100,
    {
        Money(credits * CENTS)
    }

    /// Whether the amount is below zero.
    pub fn is_negative(self) -> (b: bool)
        ensures
            b == (self.0 < 0),
    {
        self.0 < 0
    }

    /// The amount as credits with two decimals, e.g. `1041.19` or `-0.05`.
    pub fn to_string(&self) -> (s: String)
        ensures
            s@ == spec_credits_text(self.0 as int),
    {
        let mut s = String::new();
        if self.0 < 0 {
            s.append("-");
            proof {
                reveal_strlit("-");
            }
        }
        let abs: u64 = magnitude(self.0);
        push_digits(&mut s, abs / 100);
        s.append(".");
        proof {
            reveal_strlit(".");
        }
        push_two_digits(&mut s, abs % 100);
        s
    }

    /// The amount, floored at zero.
    pub fn max_zero(self) -> (m: Money)
        ensures
            m.0 == if self.0 < 0 { 0 } else { self.0 },
    {
        if self.0 < 0 { Money(0) } else { self }
    }
}

/// The character of a decimal digit.
pub open spec fn digit_char(d: int) -> char {
    if d == 0 {
        '0'
    } else if d == 1 {
        '1'
    } else if d == 2 {
        '2'
    } else if d == 3 {
        '3'
    } else if d == 4 {
        '4'
    } else if d == 5 {
        '5'
    } else if d == 6 {
        '6'
    } else if d == 7 {
        '7'
    } else if d == 8 {
        '8'
    } else {
        '9'
    }
}

/// The decimal digits of `n`, without leading zeros (`0` for zero).
pub open spec fn digits(n: nat) -> Seq<char>
    decreases n,
{
    if n < 10 {
        seq![digit_char(n as int)]
    } else {
        digits(n / 10).push(digit_char((n % 10) as int))
    }
}

/// Two decimal digits of `n < 100`, zero-padded.
pub open spec fn two_digits(n: nat) -> Seq<char> {
    seq![digit_char((n / 10) as int), digit_char((n % 10) as int)]
}

/// `|v|`.
pub open spec fn abs(v: int) -> nat {
    if v < 0 {
        (-v) as nat
    } else {
        v as nat
    }
}

/// Cents as credits with two decimals and a minus sign where negative.
pub open spec fn spec_credits_text(cents: int) -> Seq<char> {
    (if cents < 0 {
        seq!['-']
    } else {
        Seq::<char>::empty()
    }) + digits(abs(cents) / 100) + seq!['.'] + two_digits(abs(cents) % 100)
}

/// `|v|` as an unsigned number.
pub fn magnitude(v: i64) -> (m: u64)
    ensures
        m == abs(v as int),
{
    if v < 0 {
        (-(v as i128)) as u64
    } else {
        v as u64
    }
}

/// Append one decimal digit.
pub fn push_digit(s: &mut String, d: u64)
    requires
        d < 10,
    ensures
        final(s)@ == old(s)@.push(digit_char(d as int)),
{
    let t: &str = if d == 0 {
        "0"
    } else if d == 1 {
        "1"
    } else if d == 2 {
        "2"
    } else if d == 3 {
        "3"
    } else if d == 4 {
        "4"
    } else if d == 5 {
        "5"
    } else if d == 6 {
        "6"
    } else if d == 7 {
        "7"
    } else if d == 8 {
        "8"
    } else {
        "9"
    };
    proof {
        reveal_strlit("0");
        reveal_strlit("1");
        reveal_strlit("2");
        reveal_strlit("3");
        reveal_strlit("4");
        reveal_strlit("5");
        reveal_strlit("6");
        reveal_strlit("7");
        reveal_strlit("8");
        reveal_strlit("9");
    }
    s.append(t);
    proof {
        assert(t@ =~= seq![digit_char(d as int)]);
    }
}

/// Append the decimal digits of `n`.
pub fn push_digits(s: &mut String, n: u64)
    ensures
        final(s)@ == old(s)@ + digits(n as nat),
    decreases n,
{
    if n >= 10 {
        push_digits(s, n / 10);
    }
    push_digit(s, n % 10);
    proof {
        if n >= 10 {
            assert(old(s)@ + digits(n as nat) =~= (old(s)@ + digits((n / 10) as nat)).push(digit_char((n % 10) as int)));
        } else {
            assert(old(s)@ + digits(n as nat) =~= old(s)@.push(digit_char(n as int)));
        }
    }
}

/// Append two zero-padded digits of `n < 100`.
pub fn push_two_digits(s: &mut String, n: u64)
    requires
        n < 100,
    ensures
        final(s)@ == old(s)@ + two_digits(n as nat),
{
    push_digit(s, n / 10);
    push_digit(s, n % 10);
    proof {
        assert(old(s)@ + two_digits(n as nat) =~= old(s)@.push(digit_char((n / 10) as int)).push(
            digit_char((n % 10) as int),
        ));
    }
}

} // verus!
