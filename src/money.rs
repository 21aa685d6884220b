//! Fixed-point money: an `i64` count of ten-thousandths, with checked
//! arithmetic and a decimal text form of exactly four fractional digits.
use vstd::prelude::*;

use crate::text::{
    all_digits, chars_of, digit_char, digit_of, digit_text, digit_value, digits_of, digits_value,
    is_digit, lemma_digit_round_trip, lemma_digits_of, lemma_digits_value_push, push_digits,
};

verus! {

/// An amount of money in ten-thousandths: `Money(123456)` is 12.3456.
#[derive(Debug, Clone, Copy, PartialEq, Eq, Structural)]
pub struct Money(pub i64);

/// The arithmetic operation that went out of range.
#[derive(Debug, Clone, Copy, PartialEq, Eq, Structural)]
pub enum MoneyOp {
    Add,
    Sub,
}

/// Why a text is not a money amount.
#[derive(Debug, Clone, Copy, PartialEq, Eq, Structural)]
pub enum ParseFailure {
    TooManyDecimalPoints,
    InvalidInteger,
    InvalidFraction,
    OutOfRange,
}

#[derive(Debug, Clone, PartialEq, Eq)]
pub enum MoneyError {
    /// The operation, the receiver and the operand.
    Overflow(MoneyOp, Money, Money),
    /// The operation, the receiver and the operand.
    Underflow(MoneyOp, Money, Money),
    /// The reason, and the text that was read.
    Parse(ParseFailure, String),
}

/// A digit string at least this large cannot be the integer part of an `i64` amount.
pub const MAGNITUDE_CAP: u64 = 10000000000000000;

/// Position of the first '.' in `t`, or `t.len()` when there is none.
pub open spec fn first_dot(t: Seq<char>) -> int
    decreases t.len(),
{
    if t.len() == 0 {
        0
    } else if t[0] == '.' {
        0
    } else {
        1 + first_dot(t.drop_first())
    }
}

/// The text before the decimal point.
pub open spec fn integer_text(t: Seq<char>) -> Seq<char> {
    t.subrange(0, first_dot(t))
}

/// The text after the decimal point (empty when there is no point).
pub open spec fn fraction_text(t: Seq<char>) -> Seq<char> {
    if first_dot(t) < t.len() {
        t.subrange(first_dot(t) + 1, t.len() as int)
    } else {
        Seq::empty()
    }
}

pub open spec fn has_second_dot(t: Seq<char>) -> bool {
    first_dot(t) < t.len() && first_dot(fraction_text(t)) < fraction_text(t).len()
}

/// Length of the sign ('+' or '-') in front of an integer text.
pub open spec fn sign_len(p: Seq<char>) -> int {
    if p.len() > 0 && (p[0] == '-' || p[0] == '+') {
        1
    } else {
        0
    }
}

pub open spec fn is_negative_text(p: Seq<char>) -> bool {
    p.len() > 0 && p[0] == '-'
}

pub open spec fn magnitude_digits(p: Seq<char>) -> Seq<char> {
    p.subrange(sign_len(p), p.len() as int)
}

/// An optional sign followed by at least one decimal digit.
pub open spec fn valid_integer(p: Seq<char>) -> bool {
    magnitude_digits(p).len() > 0 && all_digits(magnitude_digits(p))
}

/// The fraction right-padded with '0' and cut to exactly four characters.
pub open spec fn fraction_digits(f: Seq<char>) -> Seq<char> {
    Seq::new(4, |k: int| if k < f.len() { f[k] } else { '0' })
}

/// The value, in ten-thousandths, that a text denotes, or why it denotes none.
pub open spec fn parse_value(t: Seq<char>) -> Result<int, ParseFailure> {
    let p = integer_text(t);
    let f = fraction_digits(fraction_text(t));
    if has_second_dot(t) {
        Err(ParseFailure::TooManyDecimalPoints)
    } else if !valid_integer(p) {
        Err(ParseFailure::InvalidInteger)
    } else if !all_digits(f) {
        Err(ParseFailure::InvalidFraction)
    } else {
        let a = digits_value(magnitude_digits(p)) * 10000 + digits_value(f);
        let v = if is_negative_text(p) {
            -a
        } else {
            a
        };
        if i64::MIN <= v <= i64::MAX {
            Ok(v)
        } else {
            Err(ParseFailure::OutOfRange)
        }
    }
}

pub open spec fn four_digits(r: int) -> Seq<char> {
    seq![
        digit_char(r / 1000),
        digit_char((r / 100) % 10),
        digit_char((r / 10) % 10),
        digit_char(r % 10),
    ]
}

pub open spec fn abs(v: int) -> int {
    if v < 0 {
        -v
    } else {
        v
    }
}

/// The text of an amount: a '-' for negative amounts, the whole units, a point,
/// and exactly four digits of ten-thousandths.
pub open spec fn money_text(v: int) -> Seq<char> {
    (if v < 0 {
        seq!['-']
    } else {
        Seq::<char>::empty()
    }) + digits_of((abs(v) / 10000) as nat) + seq!['.'] + four_digits(abs(v) % 10000)
}

/// The outcome of adding `b` to `a`.
pub open spec fn add_spec(a: Money, b: Money) -> Result<Money, MoneyError> {
    if a.0 + b.0 > i64::MAX {
        Err(MoneyError::Overflow(MoneyOp::Add, a, b))
    } else if a.0 + b.0 < i64::MIN {
        Err(MoneyError::Underflow(MoneyOp::Add, a, b))
    } else {
        Ok(Money((a.0 + b.0) as i64))
    }
}

/// The outcome of subtracting `b` from `a`.
pub open spec fn sub_spec(a: Money, b: Money) -> Result<Money, MoneyError> {
    if a.0 - b.0 > i64::MAX {
        Err(MoneyError::Overflow(MoneyOp::Sub, a, b))
    } else if a.0 - b.0 < i64::MIN {
        Err(MoneyError::Underflow(MoneyOp::Sub, a, b))
    } else {
        Ok(Money((a.0 - b.0) as i64))
    }
}

pub proof fn lemma_first_dot(s: Seq<char>, i: int)
    requires
        0 <= i <= s.len(),
        forall|j: int| 0 <= j < i ==> s[j] != '.',
        i < s.len() ==> s[i] == '.',
    ensures
        first_dot(s) == i,
    decreases i,
{
    if i > 0 {
        lemma_first_dot(s.drop_first(), i - 1);
    }
}

pub proof fn lemma_digits_value_nonneg(s: Seq<char>)
    ensures
        digits_value(s) >= 0,
    decreases s.len(),
{
    if s.len() > 0 {
        lemma_digits_value_nonneg(s.drop_last());
    }
}

proof fn lemma_four_digits(r: int)
    requires
        0 <= r < 10000,
    ensures
        four_digits(r).len() == 4,
        all_digits(four_digits(r)),
        digits_value(four_digits(r)) == r,
        forall|i: int| 0 <= i < 4 ==> #[trigger] four_digits(r)[i] != '.',
{
    let a = r / 1000;
    let b = (r / 100) % 10;
    let c = (r / 10) % 10;
    let d = r % 10;
    lemma_digit_round_trip(a);
    lemma_digit_round_trip(b);
    lemma_digit_round_trip(c);
    lemma_digit_round_trip(d);
    let e = Seq::<char>::empty();
    assert(four_digits(r) =~= e.push(digit_char(a)).push(digit_char(b)).push(digit_char(c)).push(
        digit_char(d),
    ));
    lemma_digits_value_push(e, digit_char(a));
    lemma_digits_value_push(e.push(digit_char(a)), digit_char(b));
    lemma_digits_value_push(e.push(digit_char(a)).push(digit_char(b)), digit_char(c));
    lemma_digits_value_push(
        e.push(digit_char(a)).push(digit_char(b)).push(digit_char(c)),
        digit_char(d),
    );
    assert(1000 * a + 100 * b + 10 * c + d == r);
}

/// Rendering an amount and reading the text back gives the same amount, for
/// every `i64` amount, the largest and the smallest included.
pub proof fn lemma_parse_money_text(m: Money)
    ensures
        parse_value(money_text(m.0 as int)) == Ok::<int, ParseFailure>(m.0 as int),
{
    let v = m.0 as int;
    let a = abs(v);
    let q = a / 10000;
    let r = a % 10000;
    let sign = if v < 0 {
        seq!['-']
    } else {
        Seq::<char>::empty()
    };
    let ds = digits_of(q as nat);
    let fs = four_digits(r);
    let t = money_text(v);
    lemma_digits_of(q as nat);
    lemma_four_digits(r);
    assert(t =~= sign + ds + seq!['.'] + fs);
    let d = (sign.len() + ds.len()) as int;
    assert forall|j: int| 0 <= j < d implies t[j] != '.' by {
        if j >= sign.len() {
            assert(t[j] == ds[j - sign.len()]);
            assert(is_digit(ds[j - sign.len()]));
        }
    }
    lemma_first_dot(t, d);
    assert(integer_text(t) =~= sign + ds);
    let p = integer_text(t);
    assert(sign_len(p) == sign.len()) by {
        if v >= 0 {
            assert(p[0] == ds[0]);
            assert(is_digit(ds[0]));
        }
    }
    assert(magnitude_digits(p) =~= ds);
    assert(fraction_text(t) =~= fs);
    lemma_first_dot(fs, 4);
    assert(!has_second_dot(t));
    assert(fraction_digits(fs) =~= fs);
    assert(is_negative_text(p) == (v < 0)) by {
        if v >= 0 {
            assert(p[0] == ds[0]);
            assert(is_digit(ds[0]));
        }
    }
    assert(q * 10000 + r == a);
}

/// Whether `t[from..to]` holds only digits, and the value of those digits,
/// saturated at `MAGNITUDE_CAP`.
fn read_digits(t: &Vec<char>, from: usize, to: usize) -> (r: (bool, u64))
    requires
        from <= to <= t@.len(),
    ensures
        r.0 == all_digits(t@.subrange(from as int, to as int)),
        r.0 ==> r.1 == (if digits_value(t@.subrange(from as int, to as int))
            < MAGNITUDE_CAP as int {
            digits_value(t@.subrange(from as int, to as int))
        } else {
            MAGNITUDE_CAP as int
        }),
{
    let mut acc: u64 = 0;
    let mut i: usize = from;
    while i < to
        invariant
            from <= i <= to <= t@.len(),
            all_digits(t@.subrange(from as int, i as int)),
            acc == (if digits_value(t@.subrange(from as int, i as int)) < MAGNITUDE_CAP as int {
                digits_value(t@.subrange(from as int, i as int))
            } else {
                MAGNITUDE_CAP as int
            }),
        decreases to - i,
    {
        let c = t[i];
        let prefix = Ghost(t@.subrange(from as int, i as int));
        assert(t@.subrange(from as int, i + 1) =~= prefix@.push(c));
        proof {
            lemma_digits_value_push(prefix@, c);
            lemma_digits_value_nonneg(prefix@);
        }
        match digit_of(c) {
            None => {
                assert(!is_digit(t@.subrange(from as int, to as int)[i - from]));
                return (false, 0);
            },
            Some(dv) => {
                let next = acc * 10 + dv as u64;
                acc = if next < MAGNITUDE_CAP {
                    next
                } else {
                    MAGNITUDE_CAP
                };
            },
        }
        i = i + 1;
        assert forall|j: int| 0 <= j < t@.subrange(from as int, i as int).len() implies #[trigger] is_digit(
            t@.subrange(from as int, i as int)[j],
        ) by {
            if j < i - 1 - from {
                assert(t@.subrange(from as int, i as int)[j] == prefix@[j]);
            }
        }
    }
    (true, acc)
}

/// Index of the first '.' in `t` at or after `from`, or `t.len()`.
fn find_dot(t: &Vec<char>, from: usize) -> (r: usize)
    requires
        from <= t@.len(),
    ensures
        from <= r <= t@.len(),
        r - from == first_dot(t@.subrange(from as int, t@.len() as int)),
{
    let n = t.len();
    let mut i: usize = from;
    while i < n && t[i] != '.'
        invariant
            from <= i <= n == t@.len(),
            forall|j: int| from <= j < i ==> t@[j] != '.',
        decreases n - i,
    {
        i = i + 1;
    }
    proof {
        lemma_first_dot(t@.subrange(from as int, n as int), i - from);
    }
    i
}

impl Money {
    /// The largest amount, 922337203685477.5807.
    pub fn max_value() -> (r: Money)
        ensures
            r.0 == i64::MAX,
    {
        Money(i64::MAX)
    }

    /// The smallest amount, -922337203685477.5808.
    pub fn min_value() -> (r: Money)
        ensures
            r.0 == i64::MIN,
    {
        Money(i64::MIN)
    }

    /// Reads an amount: an optional sign, whole units, and optionally a point
    /// followed by a fraction whose first four characters count (missing ones
    /// are zeros, further ones are dropped, never rounded).
    pub fn parse(string: String) -> (r: Result<Money, MoneyError>)
        ensures
            match parse_value(string@) {
                Ok(v) => r == Ok::<Money, MoneyError>(Money(v as i64)),
                Err(f) => r == Err::<Money, MoneyError>(MoneyError::Parse(f, string)),
            },
    {
        let t = chars_of(string.as_str());
        let n = t.len();
        assert(t@.subrange(0, n as int) =~= t@);
        let d = find_dot(&t, 0);
        if d < n {
            let d2 = find_dot(&t, d + 1);
            if d2 < n {
                return Err(MoneyError::Parse(ParseFailure::TooManyDecimalPoints, string));
            }
        }
        assert(!has_second_dot(t@));
        let start: usize = if d > 0 && (t[0] == '-' || t[0] == '+') {
            1
        } else {
            0
        };
        let negative = d > 0 && t[0] == '-';
        assert(magnitude_digits(integer_text(t@)) =~= t@.subrange(start as int, d as int));
        let (int_ok, magnitude) = read_digits(&t, start, d);
        if start == d || !int_ok {
            return Err(MoneyError::Parse(ParseFailure::InvalidInteger, string));
        }
        let mut frac: Vec<char> = Vec::new();
        let mut k: usize = 0;
        while k < 4
            invariant
                k <= 4,
                d <= n == t@.len(),
                d as int == first_dot(t@),
                frac@.len() == k,
                forall|j: int| 0 <= j < k ==> #[trigger] frac@[j] == fraction_digits(
                    fraction_text(t@),
                )[j],
            decreases 4 - k,
        {
            let c = if d < n && k < n - d - 1 {
                t[d + 1 + k]
            } else {
                '0'
            };
            frac.push(c);
            k = k + 1;
        }
        assert(frac@ =~= fraction_digits(fraction_text(t@)));
        assert(frac@.subrange(0, 4) =~= frac@);
        let (frac_ok, cents) = read_digits(&frac, 0, 4);
        if !frac_ok {
            return Err(MoneyError::Parse(ParseFailure::InvalidFraction, string));
        }
        proof {
            lemma_digits_value_nonneg(frac@);
            lemma_digits_value_nonneg(t@.subrange(start as int, d as int));
            lemma_digits_value_bound(frac@);
        }
        if magnitude >= MAGNITUDE_CAP {
            return Err(MoneyError::Parse(ParseFailure::OutOfRange, string));
        }
        let total: i128 = magnitude as i128 * 10000 + cents as i128;
        let value: i128 = if negative {
            -total
        } else {
            total
        };
        if value < -9223372036854775808i128 || value > 9223372036854775807i128 {
            return Err(MoneyError::Parse(ParseFailure::OutOfRange, string));
        }
        Ok(Money(value as i64))
    }

    /// Adds `other`. When the exact sum leaves the `i64` range the receiver is
    /// clamped to the bound that was crossed and the error names the direction.
    pub fn add(&mut self, other: &Money) -> (r: Result<(), MoneyError>)
        ensures
            old(self).0 + other.0 > i64::MAX ==> final(self).0 == i64::MAX && r == Err::<
                (),
                MoneyError,
            >(MoneyError::Overflow(MoneyOp::Add, *old(self), *other)),
            old(self).0 + other.0 < i64::MIN ==> final(self).0 == i64::MIN && r == Err::<
                (),
                MoneyError,
            >(MoneyError::Underflow(MoneyOp::Add, *old(self), *other)),
            i64::MIN <= old(self).0 + other.0 <= i64::MAX ==> final(self).0 == old(self).0
                + other.0 && r is Ok,
            match add_spec(*old(self), *other) {
                Ok(m) => r is Ok && *final(self) == m,
                Err(e) => r == Err::<(), MoneyError>(e),
            },
    {
        let a = self.0;
        let b = other.0;
        if b > 0 && i64::MAX - b < a {
            *self = Money::max_value();
            return Err(MoneyError::Overflow(MoneyOp::Add, Money(a), *other));
        }
        if b < 0 && i64::MIN - b > a {
            *self = Money::min_value();
            return Err(MoneyError::Underflow(MoneyOp::Add, Money(a), *other));
        }
        self.0 = a + b;
        Ok(())
    }

    /// Subtracts `other`: the same as adding its negation, computed exactly
    /// (so the smallest amount can be subtracted too).
    pub fn sub(&mut self, other: &Money) -> (r: Result<(), MoneyError>)
        ensures
            old(self).0 - other.0 > i64::MAX ==> final(self).0 == i64::MAX && r == Err::<
                (),
                MoneyError,
            >(MoneyError::Overflow(MoneyOp::Sub, *old(self), *other)),
            old(self).0 - other.0 < i64::MIN ==> final(self).0 == i64::MIN && r == Err::<
                (),
                MoneyError,
            >(MoneyError::Underflow(MoneyOp::Sub, *old(self), *other)),
            i64::MIN <= old(self).0 - other.0 <= i64::MAX ==> final(self).0 == old(self).0
                - other.0 && r is Ok,
            match sub_spec(*old(self), *other) {
                Ok(m) => r is Ok && *final(self) == m,
                Err(e) => r == Err::<(), MoneyError>(e),
            },
    {
        let a = self.0;
        let b = other.0;
        if b < 0 && a > i64::MAX + b {
            *self = Money::max_value();
            return Err(MoneyError::Overflow(MoneyOp::Sub, Money(a), *other));
        }
        if b > 0 && a < i64::MIN + b {
            *self = Money::min_value();
            return Err(MoneyError::Underflow(MoneyOp::Sub, Money(a), *other));
        }
        self.0 = a - b;
        Ok(())
    }

    /// The text of the amount, e.g. "1234.5678", "0.0001" or "-0.5000".
    pub fn to_string(&self) -> (r: String)
        ensures
            r@ == money_text(self.0 as int),
    {
        let v = self.0;
        let a: u64 = if v < 0 {
            (0i128 - v as i128) as u64
        } else {
            v as u64
        };
        assert(a == abs(v as int));
        let mut s = String::new();
        if v < 0 {
            proof { reveal_strlit("-"); }
            s.append("-");
        }
        push_digits(&mut s, a / 10000);
        proof { reveal_strlit("."); }
        s.append(".");
        let r = a % 10000;
        s.append(digit_text(r / 1000));
        s.append(digit_text((r / 100) % 10));
        s.append(digit_text((r / 10) % 10));
        s.append(digit_text(r % 10));
        assert(s@ =~= money_text(v as int));
        s
    }
}

proof fn lemma_digits_value_bound(s: Seq<char>)
    requires
        s.len() == 4,
        all_digits(s),
    ensures
        digits_value(s) < 10000,
{
    let e = Seq::<char>::empty();
    assert(s =~= e.push(s[0]).push(s[1]).push(s[2]).push(s[3]));
    lemma_digits_value_push(e, s[0]);
    lemma_digits_value_push(e.push(s[0]), s[1]);
    lemma_digits_value_push(e.push(s[0]).push(s[1]), s[2]);
    lemma_digits_value_push(e.push(s[0]).push(s[1]).push(s[2]), s[3]);
    assert(is_digit(s[0]) && is_digit(s[1]) && is_digit(s[2]) && is_digit(s[3]));
    assert(digit_value(s[0]) <= 9 && digit_value(s[1]) <= 9 && digit_value(s[2]) <= 9
        && digit_value(s[3]) <= 9);
}

} // verus!
