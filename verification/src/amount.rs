//! Amounts in credits as people type and read them: `1.30` is 130 cents.
use crate::money::{abs, digit_char, digits, magnitude, push_digits, push_two_digits, two_digits};
use vstd::prelude::*;

verus! {

broadcast use vstd::string::axiom_spec_iter;

/// The characters of a string.
pub fn chars_of(s: &str) -> (v: Vec<char>)
    ensures
        v@ == s@,
{
    let mut v: Vec<char> = Vec::new();
    for c in iter: s.chars()
        invariant
            v@ == iter.seq().take(iter.index() as int),
    {
        v.push(c);
    }
    v
}

} // verus!

verus! {

/// Whether `c` is white space as Unicode defines it.
pub open spec fn is_space(c: char) -> bool {
    let u = c as u32;
    ||| 0x09 <= u <= 0x0d
    ||| u == 0x20
    ||| u == 0x85
    ||| u == 0xa0
    ||| u == 0x1680
    ||| 0x2000 <= u <= 0x200a
    ||| u == 0x2028
    ||| u == 0x2029
    ||| u == 0x202f
    ||| u == 0x205f
    ||| u == 0x3000
}

/// The text without its leading white space.
pub open spec fn trim_start(s: Seq<char>) -> Seq<char>
    decreases s.len(),
{
    if s.len() > 0 && is_space(s[0]) {
        trim_start(s.drop_first())
    } else {
        s
    }
}

/// The text without its trailing white space.
pub open spec fn trim_end(s: Seq<char>) -> Seq<char>
    decreases s.len(),
{
    if s.len() > 0 && is_space(s.last()) {
        trim_end(s.drop_last())
    } else {
        s
    }
}

/// The text without leading or trailing white space.
pub open spec fn trimmed(s: Seq<char>) -> Seq<char> {
    trim_end(trim_start(s))
}

/// Whether `c` is an ASCII decimal digit.
pub open spec fn is_digit(c: char) -> bool {
    '0' <= c <= '9'
}

/// Whether every character is a decimal digit.
pub open spec fn all_digits(s: Seq<char>) -> bool {
    forall|i: int| 0 <= i < s.len() ==> is_digit(#[trigger] s[i])
}

/// The value of a run of decimal digits.
pub open spec fn decimal(s: Seq<char>) -> int
    decreases s.len(),
{
    if s.len() == 0 {
        0
    } else {
        decimal(s.drop_last()) * 10 + (s.last() as int - '0' as int)
    }
}

/// A whole number as text reads it: an optional sign and at least one
/// digit, within the range of an `i64`; `None` otherwise.
pub open spec fn parse_i64(t: Seq<char>) -> Option<int> {
    let signed = t.len() > 0 && (t[0] == '-' || t[0] == '+');
    let rest = if signed {
        t.drop_first()
    } else {
        t
    };
    let negative = signed && t[0] == '-';
    if rest.len() == 0 || !all_digits(rest) {
        None
    } else {
        let v = if negative {
            -decimal(rest)
        } else {
            decimal(rest)
        };
        if i64::MIN <= v <= i64::MAX {
            Some(v)
        } else {
            None
        }
    }
}

/// The position of the first `.` in the text.
pub open spec fn dot_at(t: Seq<char>) -> Option<int> {
    if exists|k: int| 0 <= k < t.len() && t[k] == '.' {
        Some(choose|k: int| 0 <= k < t.len() && t[k] == '.' && forall|j: int| 0 <= j < k ==> t[j] != '.')
    } else {
        None
    }
}

/// The whole part of an amount: the text up to the first `.`, or all of it.
pub open spec fn whole_part(t: Seq<char>) -> Seq<char> {
    match dot_at(t) {
        Some(k) => t.subrange(0, k),
        None => t,
    }
}

/// The fractional part of an amount, padded with zeros to two places.
pub open spec fn padded_frac(t: Seq<char>) -> Seq<char> {
    let f = match dot_at(t) {
        Some(k) => t.subrange(k + 1, t.len() as int),
        None => seq!['0'],
    };
    if f.len() == 0 {
        seq!['0', '0']
    } else if f.len() == 1 {
        f.push('0')
    } else {
        f
    }
}

/// Bytes a character takes in UTF-8.
pub open spec fn utf8_len(c: char) -> int {
    if (c as u32) < 0x80 {
        1
    } else if (c as u32) < 0x800 {
        2
    } else if (c as u32) < 0x10000 {
        3
    } else {
        4
    }
}

/// Whether the first two bytes of the padded fraction end on a character:
/// two one-byte characters, or one two-byte character.
pub open spec fn frac_cuts_cleanly(p: Seq<char>) -> bool {
    (utf8_len(p[0]) == 1 && utf8_len(p[1]) == 1) || utf8_len(p[0]) == 2
}

/// The cents of the fraction: its first two places read as a number, when
/// both are one-byte characters.
pub open spec fn frac_cents(p: Seq<char>) -> Option<int> {
    if utf8_len(p[0]) == 1 && utf8_len(p[1]) == 1 {
        parse_i64(seq![p[0], p[1]])
    } else {
        None
    }
}

/// The cents an amount in credits reads as: the whole part times 100 plus
/// the first two places of the fraction; `None` where either part is not a number.
pub open spec fn spec_credits_to_cents(s: Seq<char>) -> Option<int> {
    let t = trimmed(s);
    match parse_i64(whole_part(t)) {
        None => None,
        Some(w) => match frac_cents(padded_frac(t)) {
            None => None,
            Some(f) => Some(w * 100 + f),
        },
    }
}

/// Whether reading an amount can go through without a fault: where the
/// whole part reads, the fraction's first two bytes end on a character and
/// the cents fit.
pub open spec fn readable(s: Seq<char>) -> bool {
    let t = trimmed(s);
    parse_i64(whole_part(t)) matches Some(w) ==> {
        &&& frac_cuts_cleanly(padded_frac(t))
        &&& (frac_cents(padded_frac(t)) is Some ==> i64::MIN <= w * 100 <= i64::MAX)
        &&& (spec_credits_to_cents(s) matches Some(v) ==> i64::MIN <= v <= i64::MAX)
    }
}

/// Text that is not an amount in credits.
#[derive(Clone, Debug)]
pub struct NotAnAmount {
    pub message: String,
}

/// Whether `c` is white space as Unicode defines it.
fn space(c: char) -> (b: bool)
    ensures
        b == is_space(c),
{
    let u = c as u32;
    (0x09 <= u && u <= 0x0d) || u == 0x20 || u == 0x85 || u == 0xa0 || u == 0x1680 || (0x2000 <= u && u <= 0x200a)
        || u == 0x2028 || u == 0x2029 || u == 0x202f || u == 0x205f || u == 0x3000
}

/// The bounds of the text without its leading and trailing white space.
fn trim_bounds(v: &Vec<char>) -> (r: (usize, usize))
    ensures
        r.0 <= r.1 <= v@.len(),
        v@.subrange(r.0 as int, r.1 as int) == trimmed(v@),
{
    let n = v.len();
    let mut i: usize = 0;
    assert(v@.subrange(0, n as int) =~= v@);
    while i < n && space(v[i])
        invariant
            i <= n == v@.len(),
            trim_start(v@) == trim_start(v@.subrange(i as int, n as int)),
        decreases n - i,
    {
        proof {
            assert(v@.subrange(i as int, n as int).drop_first() =~= v@.subrange(i + 1, n as int));
        }
        i = i + 1;
    }
    proof {
        assert(trim_start(v@) == v@.subrange(i as int, n as int));
    }
    let mut j: usize = n;
    assert(v@.subrange(i as int, n as int) =~= v@.subrange(i as int, j as int));
    while j > i && space(v[j - 1])
        invariant
            i <= j <= n == v@.len(),
            trim_start(v@) == v@.subrange(i as int, n as int),
            trim_end(v@.subrange(i as int, n as int)) == trim_end(v@.subrange(i as int, j as int)),
        decreases j - i,
    {
        proof {
            assert(v@.subrange(i as int, j as int).drop_last() =~= v@.subrange(i as int, j - 1));
        }
        j = j - 1;
    }
    (i, j)
}

/// The characters of `v` from `a` to `b`.
fn slice(v: &Vec<char>, a: usize, b: usize) -> (r: Vec<char>)
    requires
        a <= b <= v@.len(),
    ensures
        r@ == v@.subrange(a as int, b as int),
{
    let mut r: Vec<char> = Vec::new();
    let mut k: usize = a;
    while k < b
        invariant
            a <= k <= b <= v@.len(),
            r@ == v@.subrange(a as int, k as int),
        decreases b - k,
    {
        r.push(v[k]);
        proof {
            assert(v@.subrange(a as int, k + 1) =~= v@.subrange(a as int, k as int).push(v@[k as int]));
        }
        k = k + 1;
    }
    r
}

/// A longer run of digits is worth at least its prefix.
proof fn lemma_decimal_prefix(s: Seq<char>, k: int)
    requires
        0 <= k <= s.len(),
        forall|i: int| 0 <= i < s.len() ==> is_digit(#[trigger] s[i]),
    ensures
        decimal(s) >= decimal(s.take(k)) >= 0,
    decreases s.len() - k,
{
    if k == s.len() {
        assert(s.take(k) =~= s);
        lemma_decimal_nonneg(s);
    } else {
        lemma_decimal_prefix(s, k + 1);
        assert(s.take(k + 1).drop_last() =~= s.take(k));
        lemma_decimal_nonneg(s.take(k));
        assert forall|i: int| 0 <= i < s.take(k).len() implies is_digit(#[trigger] s.take(k)[i]) by {
            assert(s.take(k)[i] == s[i]);
        }
        lemma_decimal_nonneg(s.take(k));
    }
}

/// A run of digits is worth at least nothing.
proof fn lemma_decimal_nonneg(s: Seq<char>)
    requires
        forall|i: int| 0 <= i < s.len() ==> is_digit(#[trigger] s[i]),
    ensures
        decimal(s) >= 0,
    decreases s.len(),
{
    if s.len() > 0 {
        assert forall|i: int| 0 <= i < s.drop_last().len() implies is_digit(#[trigger] s.drop_last()[i]) by {
            assert(s.drop_last()[i] == s[i]);
        }
        lemma_decimal_nonneg(s.drop_last());
    }
}

/// The value of a run of digits, where it is at most 2^63; else `None`.
pub fn read_digits(d: &Vec<char>) -> (r: Option<u64>)
    ensures
        match r {
            Some(x) => all_digits(d@) && x == decimal(d@) && x <= 0x8000_0000_0000_0000,
            None => !all_digits(d@) || decimal(d@) > 0x8000_0000_0000_0000,
        },
{
    let mut acc: u64 = 0;
    let mut k: usize = 0;
    while k < d.len()
        invariant
            k <= d@.len(),
            forall|i: int| 0 <= i < k ==> is_digit(#[trigger] d@[i]),
            acc == decimal(d@.take(k as int)),
            acc <= 0x8000_0000_0000_0000,
        decreases d@.len() - k,
    {
        let c = d[k];
        if !('0' <= c && c <= '9') {
            return None;
        }
        proof {
            assert(d@.take(k + 1).drop_last() =~= d@.take(k as int));
        }
        let v: u128 = acc as u128 * 10 + (c as u32 - '0' as u32) as u128;
        if v > 0x8000_0000_0000_0000 {
            proof {
                if all_digits(d@) {
                    lemma_decimal_prefix(d@, k + 1);
                }
            }
            return None;
        }
        acc = v as u64;
        k = k + 1;
    }
    proof {
        assert(d@.take(d@.len() as int) =~= d@);
    }
    Some(acc)
}

/// A whole number as text reads it.
fn read_i64(t: &Vec<char>) -> (r: Option<i64>)
    ensures
        match r {
            Some(x) => parse_i64(t@) == Some(x as int),
            None => parse_i64(t@) is None,
        },
{
    let signed = t.len() > 0 && (t[0] == '-' || t[0] == '+');
    let negative = signed && t[0] == '-';
    let rest = if signed {
        slice(t, 1, t.len())
    } else {
        slice(t, 0, t.len())
    };
    proof {
        if signed {
            assert(rest@ =~= t@.drop_first());
        } else {
            assert(rest@ =~= t@);
        }
    }
    proof {
        let sp = t@.len() > 0 && (t@[0] == '-' || t@[0] == '+');
        assert(sp == signed);
        assert(rest@ == (if sp { t@.drop_first() } else { t@ }));
        assert((sp && t@[0] == '-') == negative);
    }
    if rest.len() == 0 {
        return None;
    }
    match read_digits(&rest) {
        None => None,
        Some(m) => {
            proof {
                assert(decimal(rest@) == m);
                let sp = t@.len() > 0 && (t@[0] == '-' || t@[0] == '+');
                assert(sp == signed);
                assert(rest@ == (if sp { t@.drop_first() } else { t@ }));
                assert((sp && t@[0] == '-') == negative);
                assert(rest@.len() > 0);
                assert(parse_i64(t@) == Some(if negative { -(m as int) } else { m as int }) || (!negative && m > i64::MAX));
            }
            if negative {
                let x: i64 = if m == 0x8000_0000_0000_0000 {
                    i64::MIN
                } else {
                    -(m as i64)
                };
                assert(x == -(m as int));
                Some(x)
            } else if m <= 0x7fff_ffff_ffff_ffff {
                let x = m as i64;
                assert(x == m);
                Some(x)
            } else {
                None
            }
        },
    }
}

/// The position of the first `.` in the text.
fn find_dot(t: &Vec<char>) -> (r: Option<usize>)
    ensures
        match r {
            Some(k) => dot_at(t@) == Some(k as int) && k < t@.len(),
            None => dot_at(t@) is None,
        },
{
    let mut k: usize = 0;
    while k < t.len()
        invariant
            k <= t@.len(),
            forall|j: int| 0 <= j < k ==> t@[j] != '.',
        decreases t@.len() - k,
    {
        if t[k] == '.' {
            proof {
                let c = choose|c: int| 0 <= c < t@.len() && t@[c] == '.' && forall|j: int| 0 <= j < c ==> t@[j] != '.';
                assert(0 <= k < t@.len() && t@[k as int] == '.' && forall|j: int| 0 <= j < k ==> t@[j] != '.');
                if c < k {
                } else if c > k {
                    assert(t@[k as int] != '.');
                }
            }
            return Some(k);
        }
        k = k + 1;
    }
    None
}

/// How many bytes a character takes in UTF-8.
fn char_bytes(c: char) -> (n: u32)
    ensures
        n == utf8_len(c),
{
    let u = c as u32;
    if u < 0x80 {
        1
    } else if u < 0x800 {
        2
    } else if u < 0x10000 {
        3
    } else {
        4
    }
}

/// The whole part of the text, read as a number.
fn read_whole(t: &Vec<char>) -> (r: Option<i64>)
    ensures
        match r {
            Some(x) => parse_i64(whole_part(t@)) == Some(x as int),
            None => parse_i64(whole_part(t@)) is None,
        },
{
    let whole = match find_dot(t) {
        Some(k) => slice(t, 0, k),
        None => slice(t, 0, t.len()),
    };
    proof {
        if dot_at(t@) is None {
            assert(whole@ =~= t@);
        }
    }
    read_i64(&whole)
}

/// The fraction of the text, padded to two places and read as cents.
fn read_frac(t: &Vec<char>) -> (r: Option<i64>)
    ensures
        match r {
            Some(x) => frac_cents(padded_frac(t@)) == Some(x as int),
            None => frac_cents(padded_frac(t@)) is None,
        },
{
    let mut p = match find_dot(t) {
        Some(k) => {
            let n = t.len();
            assert(k < n);
            slice(t, k + 1, n)
        },
        None => vec!['0'],
    };
    proof {
        if dot_at(t@) is None {
            assert(p@ =~= seq!['0']);
        }
    }
    let ghost f = p@;
    if p.len() < 2 {
        p.push('0');
    }
    if p.len() < 2 {
        p.push('0');
    }
    proof {
        if f.len() == 0 {
            assert(p@ =~= seq!['0', '0']);
        } else if f.len() == 1 {
            assert(p@ =~= f.push('0'));
        }
        assert(p@ == padded_frac(t@));
    }
    if char_bytes(p[0]) == 1 && char_bytes(p[1]) == 1 {
        let two = vec![p[0], p[1]];
        assert(two@ =~= seq![p@[0], p@[1]]);
        read_i64(&two)
    } else {
        None
    }
}

/// The cents an amount in credits reads as, as `1.30` reads 130; the text
/// is trimmed of white space first, and an error names it where it is not
/// an amount.
pub fn credits_to_cents(s: &str) -> (r: Result<i64, NotAnAmount>)
    requires
        readable(s@),
    ensures
        match r {
            Ok(v) => spec_credits_to_cents(s@) == Some(v as int),
            Err(e) => spec_credits_to_cents(s@) is None && e.message@ == "not an amount in credits: "@ + trimmed(s@),
        },
{
    let all = chars_of(s);
    let (a, b) = trim_bounds(&all);
    let t = slice(&all, a, b);
    assert(t@ == trimmed(s@));
    let w = match read_whole(&t) {
        Some(w) => w,
        None => {
            return Err(not_an_amount(&t));
        },
    };
    match read_frac(&t) {
        Some(f) => {
            assert(spec_credits_to_cents(s@) == Some(w * 100 + f));
            Ok(w * 100 + f)
        },
        None => Err(not_an_amount(&t)),
    }
}

/// The error naming text that is not an amount.
fn not_an_amount(t: &Vec<char>) -> (e: NotAnAmount)
    ensures
        e.message@ == "not an amount in credits: "@ + t@,
{
    let mut m = String::new();
    m.append("not an amount in credits: ");
    let mut k: usize = 0;
    while k < t.len()
        invariant
            k <= t@.len(),
            m@ == "not an amount in credits: "@ + t@.take(k as int),
        decreases t@.len() - k,
    {
        push_char(&mut m, t[k]);
        proof {
            assert(t@.take(k + 1) =~= t@.take(k as int).push(t@[k as int]));
            assert("not an amount in credits: "@ + t@.take(k + 1) =~= ("not an amount in credits: "@ + t@.take(k as int)).push(t@[k as int]));
        }
        k = k + 1;
    }
    proof {
        assert(t@.take(t@.len() as int) =~= t@);
    }
    NotAnAmount { message: m }
}

/// Append one character to a string.
#[verifier::external_body]
fn push_char(s: &mut String, c: char)
    ensures
        final(s)@ == old(s)@.push(c),
{
    s.push(c)
}

/// Cents as the command line shows credits: the whole credits (rounded
/// toward zero, with their sign), a point, and two places of the remainder.
pub open spec fn spec_credits(cents: int) -> Seq<char> {
    (if cents <= -100 {
        seq!['-']
    } else {
        Seq::<char>::empty()
    }) + digits(abs(cents) / 100) + seq!['.'] + two_digits(abs(cents) % 100)
}

/// Cents as credits with two decimals: `130` reads `1.30`.
pub fn credits(cents: i64) -> (s: String)
    ensures
        s@ == spec_credits(cents as int),
{
    let mut s = String::new();
    if cents <= -100 {
        s.append("-");
        proof {
            reveal_strlit("-");
        }
    }
    let m = magnitude(cents);
    push_digits(&mut s, m / 100);
    s.append(".");
    proof {
        reveal_strlit(".");
    }
    push_two_digits(&mut s, m % 100);
    s
}

/// A digit's character is a one-byte decimal digit worth the digit.
proof fn lemma_digit_char(d: int)
    requires
        0 <= d <= 9,
    ensures
        is_digit(digit_char(d)),
        digit_char(d) as int - '0' as int == d,
        !is_space(digit_char(d)),
        digit_char(d) != '.',
        digit_char(d) != '-',
        digit_char(d) != '+',
        utf8_len(digit_char(d)) == 1,
{
}

/// The digits of `n` are one-byte decimal digits, at least one, worth `n`.
pub proof fn lemma_digits(n: nat)
    ensures
        digits(n).len() >= 1,
        all_digits(digits(n)),
        forall|i: int| 0 <= i < digits(n).len() ==> (#[trigger] digits(n)[i]) != '.' && !is_space(digits(n)[i]),
        digits(n)[0] != '-' && digits(n)[0] != '+',
        decimal(digits(n)) == n,
    decreases n,
{
    if n < 10 {
        lemma_digit_char(n as int);
        let b = seq![digit_char(n as int)];
        assert(b.drop_last() =~= Seq::<char>::empty());
        assert(decimal(b) == decimal(Seq::<char>::empty()) * 10 + (b.last() as int - '0' as int));
        assert(digits(n) == b);
    } else {
        lemma_digits(n / 10);
        lemma_digit_char((n % 10) as int);
        let d = digits(n / 10);
        let x = digit_char((n % 10) as int);
        assert(d.push(x).drop_last() =~= d);
        assert forall|i: int| 0 <= i < d.push(x).len() implies is_digit(#[trigger] d.push(x)[i]) by {
            if i < d.len() {
                assert(d.push(x)[i] == d[i]);
            }
        }
        assert forall|i: int| 0 <= i < d.push(x).len() implies (#[trigger] d.push(x)[i]) != '.' && !is_space(
            d.push(x)[i],
        ) by {
            if i < d.len() {
                assert(d.push(x)[i] == d[i]);
            }
        }
        assert(d.push(x)[0] == d[0]);
        assert(d.push(x).last() == x);
        assert(decimal(d.push(x)) == decimal(d) * 10 + (x as int - '0' as int));
        assert(digits(n) == d.push(x));
        assert((n / 10) * 10 + n % 10 == n);
    }
}

/// Printing non-negative cents as credits and reading them back gives the
/// same cents, and the reading goes through without a fault.
pub proof fn lemma_credits_round_trip(cents: int)
    requires
        0 <= cents <= i64::MAX,
    ensures
        readable(spec_credits(cents)),
        spec_credits_to_cents(spec_credits(cents)) == Some(cents),
{
    let w = (cents / 100) as nat;
    let f = (cents % 100) as nat;
    let d = digits(w);
    let two = two_digits(f);
    let s = spec_credits(cents);
    lemma_digits(w);
    lemma_digit_char((f / 10) as int);
    lemma_digit_char((f % 10) as int);
    assert(abs(cents) == cents);
    assert(s =~= d + seq!['.'] + two);
    let l = d.len() as int;
    // No white space at either end.
    assert(s[0] == d[0]);
    assert(!is_space(s[0]));
    assert(s.last() == two[1]);
    assert(trim_start(s) == s);
    assert(trim_end(s) == s);
    assert(trimmed(s) == s);
    // The first point is the one after the whole credits.
    assert(s[l] == '.');
    assert forall|j: int| 0 <= j < l implies s[j] != '.' by {
        assert(s[j] == d[j]);
    }
    let k = choose|k: int| 0 <= k < s.len() && s[k] == '.' && forall|j: int| 0 <= j < k ==> s[j] != '.';
    assert(exists|k: int| 0 <= k < s.len() && s[k] == '.');
    assert(k == l) by {
        if k < l {
            assert(s[k] == d[k]);
        }
        if k > l {
            assert(s[l] != '.');
        }
    }
    assert(dot_at(s) == Some(l));
    assert(whole_part(s) =~= d);
    assert(parse_i64(d) == Some(w as int));
    assert(s.subrange(l + 1, s.len() as int) =~= two);
    assert(padded_frac(s) == two);
    let p = seq![two[0], two[1]];
    assert(p =~= two);
    assert(p.drop_last() =~= seq![two[0]]);
    assert(seq![two[0]].drop_last() =~= Seq::<char>::empty());
    assert(decimal(seq![two[0]]) == decimal(Seq::<char>::empty()) * 10 + (two[0] as int - '0' as int));
    assert(decimal(p) == decimal(seq![two[0]]) * 10 + (two[1] as int - '0' as int));
    assert(two[0] == digit_char((f / 10) as int) && two[1] == digit_char((f % 10) as int));
    assert(decimal(p) == (f / 10) * 10 + f % 10);
    assert forall|i: int| 0 <= i < p.len() implies is_digit(#[trigger] p[i]) by {}
    assert(frac_cents(two) == Some(f as int));
    assert(w * 100 + f == cents);
}

} // verus!
