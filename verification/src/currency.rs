//! Money as a fixed-point number: a signed count of ten-thousandths held in
//! 64 bits, with exact arithmetic that saturates at the ends of the range and
//! a canonical decimal text with four fractional digits.

use crate::decimal::all_digits;
use crate::decimal::digits_value;
use crate::decimal::fixed_text;
use crate::decimal::is_digit;
use crate::decimal::lemma_digits_value_bound;
use crate::decimal::lemma_fixed_text;
use crate::decimal::lemma_number_text;
use crate::decimal::number_text;
use crate::decimal::parse_digits;
use crate::decimal::pow10;
use crate::decimal::push_fixed;
use crate::decimal::push_number;
use crate::text::chars_of;
use crate::text::find_char;
use crate::text::lemma_position_of_is;
use crate::text::position_of;
use std::cmp::Ordering;
use std::ops::Add;
use std::ops::AddAssign;
use std::ops::Neg;
use std::ops::SubAssign;
use std::str::FromStr;
use vstd::prelude::*;
use vstd::slice::slice_subrange;
use vstd::std_specs::cmp::PartialOrdSpecImpl;
use vstd::std_specs::ops::AddSpecImpl;
use vstd::std_specs::ops::NegSpecImpl;

verus! {

/// The text given to `Currency::parse` is not a decimal amount, or the
/// amount it writes does not fit.
#[derive(Clone, Copy, Debug, PartialEq, Eq)]
pub struct ParseCurrencyError;

/// An amount of money, counted in ten-thousandths of a whole.
///
/// A 64-bit count reaches about 922 trillion wholes either way. Sums,
/// differences and negations that would leave that range stop at its end
/// instead of wrapping.
#[derive(Clone, Copy, Debug, PartialEq, Eq, Ord, Structural)]
pub struct Currency(i64);

impl View for Currency {
    type V = i64;

    /// The amount in ten-thousandths.
    closed spec fn view(&self) -> i64 {
        self.0
    }
}

/// `v` brought into the 64-bit range: the nearest end of the range when it
/// lies outside, `v` itself otherwise.
pub open spec fn clamp(v: int) -> i64 {
    if v < i64::MIN {
        i64::MIN
    } else if v > i64::MAX {
        i64::MAX
    } else {
        v as i64
    }
}

/// The canonical text of the amount `v`: a `-` for a negative amount, the
/// whole part without leading zeros, a `.`, and exactly four fractional
/// digits. The digits are those of the magnitude, so `-1` is `-0.0001`.
pub open spec fn amount_text(v: int) -> Seq<char> {
    let magnitude = if v < 0 {
        -v
    } else {
        v
    };
    let sign = if v < 0 {
        seq!['-']
    } else {
        Seq::<char>::empty()
    };
    sign + number_text((magnitude / 10000) as nat) + seq!['.'] + fixed_text(
        (magnitude % 10000) as nat,
        4,
    )
}

/// How many characters of `s` are its sign: 1 when it starts with `-` or
/// `+`, else 0.
pub open spec fn sign_len(s: Seq<char>) -> int {
    if s.len() > 0 && (s[0] == '-' || s[0] == '+') {
        1
    } else {
        0
    }
}

/// The text starts with `-`.
pub open spec fn has_minus(s: Seq<char>) -> bool {
    s.len() > 0 && s[0] == '-'
}

/// What stands between the sign and the first `.`.
pub open spec fn whole_part(s: Seq<char>) -> Seq<char> {
    let body = s.skip(sign_len(s));
    body.take(position_of(body, '.'))
}

/// What follows the first `.`; empty when there is no `.`.
pub open spec fn fraction_part(s: Seq<char>) -> Seq<char> {
    let body = s.skip(sign_len(s));
    let dot = position_of(body, '.');
    if dot < body.len() {
        body.skip(dot + 1)
    } else {
        Seq::empty()
    }
}

/// `s` has the shape of an amount: an optional sign, one or more digits,
/// and optionally a `.` followed by at most four digits.
pub open spec fn is_amount_text(s: Seq<char>) -> bool {
    &&& whole_part(s).len() > 0
    &&& all_digits(whole_part(s))
    &&& fraction_part(s).len() <= 4
    &&& all_digits(fraction_part(s))
}

/// The amount that a text of that shape writes, in ten-thousandths: missing
/// fractional digits count as zeros, and a `-` negates the whole amount.
pub open spec fn text_value(s: Seq<char>) -> int {
    let fraction = fraction_part(s);
    let magnitude = digits_value(whole_part(s)) * 10000 + digits_value(fraction) * pow10(
        (4 - fraction.len()) as nat,
    );
    if has_minus(s) {
        -magnitude
    } else {
        magnitude
    }
}

/// The amount that `s` writes: `Some` when `s` has the shape of an amount
/// and the amount fits in 64 bits, `None` otherwise.
pub open spec fn amount_of_text(s: Seq<char>) -> Option<i64> {
    if is_amount_text(s) && i64::MIN <= text_value(s) <= i64::MAX {
        Some(text_value(s) as i64)
    } else {
        None
    }
}

/// Reading the canonical text of an amount gives the amount back, so
/// writing what was read from a canonical text gives the same text.
pub proof fn lemma_text_round_trip(v: i64)
    ensures
        amount_of_text(amount_text(v as int)) == Some(v),
        amount_text(amount_of_text(amount_text(v as int)).unwrap() as int) == amount_text(v as int),
{
    let magnitude: int = if v < 0 {
        -v
    } else {
        v as int
    };
    let whole = number_text((magnitude / 10000) as nat);
    let fraction = fixed_text((magnitude % 10000) as nat, 4);
    let s = amount_text(v as int);
    lemma_number_text((magnitude / 10000) as nat);
    lemma_fixed_text((magnitude % 10000) as nat, 4);
    reveal_with_fuel(pow10, 5);
    assert(is_digit(whole[0]));
    let body = whole + seq!['.'] + fraction;
    if v < 0 {
        assert(s[0] == '-');
        assert(s.skip(1) =~= body);
    } else {
        assert(s[0] == whole[0]);
        assert(s.skip(0) =~= body);
    }
    assert(s.skip(sign_len(s)) == body);
    assert(has_minus(s) == (v < 0));
    assert forall|i: int| 0 <= i < whole.len() implies body[i] != '.' by {
        assert(is_digit(whole[i]));
        assert(body[i] == whole[i]);
    }
    lemma_position_of_is(body, '.', whole.len() as int);
    assert(body.take(whole.len() as int) =~= whole);
    assert(body.skip(whole.len() as int + 1) =~= fraction);
    assert(whole_part(s) == whole);
    assert(fraction_part(s) == fraction);
    assert(digits_value(fraction) == magnitude % 10000);
    assert(pow10((4 - fraction.len()) as nat) == 1);
    assert(text_value(s) == v);
}

impl Currency {
    /// The amount of `x` ten-thousandths.
    pub fn new(x: i64) -> (c: Self)
        ensures
            c@ == x,
    {
        Currency(x)
    }

    /// The distance of the amount from zero.
    fn magnitude(self) -> (m: u64)
        ensures
            m == if self@ < 0 {
                -self@
            } else {
                self@ as int
            },
    {
        if self.0 >= 0 {
            self.0 as u64
        } else if self.0 == i64::MIN {
            0x8000_0000_0000_0000u64
        } else {
            (-self.0) as u64
        }
    }

    /// Reads an amount from decimal text: an optional `+` or `-`, one or
    /// more digits, and optionally a `.` followed by at most four digits.
    /// Fails on any other text, and on an amount that does not fit in 64
    /// bits.
    pub fn parse(text: &[char]) -> (r: Result<Currency, ParseCurrencyError>)
        ensures
            match amount_of_text(text@) {
                Some(v) => r matches Ok(c) && c@ == v,
                None => r is Err,
            },
    {
        let n = text.len();
        let start: usize = if n > 0 && (text[0] == '-' || text[0] == '+') {
            1
        } else {
            0
        };
        let negative = n > 0 && text[0] == '-';
        let body = slice_subrange(text, start, n);
        let dot = find_char(body, '.');
        let whole = slice_subrange(body, 0, dot);
        let ghost fraction = fraction_part(text@);
        proof {
            reveal_with_fuel(pow10, 5);
            assert(body@ =~= text@.skip(sign_len(text@)));
            assert(whole@ =~= whole_part(text@));
            if all_digits(fraction) {
                lemma_digits_value_bound(fraction);
            }
        }
        let whole_value = match parse_digits(whole, 922337203685477) {
            Some(w) => w,
            None => {
                return Err(ParseCurrencyError);
            },
        };
        let mut scaled: u64 = 0;
        if dot < body.len() {
            let digits = slice_subrange(body, dot + 1, body.len());
            assert(digits@ =~= fraction);
            let k = digits.len();
            if k > 4 {
                return Err(ParseCurrencyError);
            }
            if k > 0 {
                let f = match parse_digits(digits, 9999) {
                    Some(f) => f,
                    None => {
                        return Err(ParseCurrencyError);
                    },
                };
                scaled = if k == 1 {
                    f * 1000
                } else if k == 2 {
                    f * 100
                } else if k == 3 {
                    f * 10
                } else {
                    f
                };
            }
        }
        assert(scaled == digits_value(fraction) * pow10((4 - fraction.len()) as nat));
        let magnitude = whole_value * 10000 + scaled;
        if negative {
            if magnitude > 0x8000_0000_0000_0000u64 {
                Err(ParseCurrencyError)
            } else if magnitude == 0x8000_0000_0000_0000u64 {
                Ok(Currency(i64::MIN))
            } else {
                Ok(Currency(-(magnitude as i64)))
            }
        } else {
            if magnitude > 0x7fff_ffff_ffff_ffffu64 {
                Err(ParseCurrencyError)
            } else {
                Ok(Currency(magnitude as i64))
            }
        }
    }

    /// The canonical text of the amount.
    pub fn to_string(&self) -> (s: String)
        ensures
            s@ == amount_text(self@ as int),
    {
        let mut out = String::new();
        let magnitude = self.magnitude();
        if self.0 < 0 {
            out.append("-");
        }
        proof {
            reveal_strlit("-");
            reveal_strlit(".");
        }
        push_number(&mut out, magnitude / 10000);
        out.append(".");
        push_fixed(&mut out, magnitude % 10000, 4);
        assert(out@ =~= amount_text(self@ as int));
        out
    }
}

impl Default for Currency {
    /// No money.
    fn default() -> (c: Currency)
        ensures
            c@ == 0,
    {
        Currency(0)
    }
}

impl FromStr for Currency {
    type Err = ParseCurrencyError;

    /// Reads an amount as `Currency::parse` does.
    fn from_str(s: &str) -> (r: Result<Currency, ParseCurrencyError>)
        ensures
            match amount_of_text(s@) {
                Some(v) => r matches Ok(c) && c@ == v,
                None => r is Err,
            },
    {
        let chars = chars_of(s);
        Currency::parse(chars.as_slice())
    }
}

impl PartialOrdSpecImpl for Currency {
    open spec fn obeys_partial_cmp_spec() -> bool {
        true
    }

    /// Amounts are ordered as their counts of ten-thousandths.
    open spec fn partial_cmp_spec(&self, other: &Currency) -> Option<Ordering> {
        if self@ < other@ {
            Some(Ordering::Less)
        } else if self@ == other@ {
            Some(Ordering::Equal)
        } else {
            Some(Ordering::Greater)
        }
    }
}

impl PartialOrd for Currency {
    fn partial_cmp(&self, other: &Currency) -> (r: Option<Ordering>) {
        if self.0 < other.0 {
            Some(Ordering::Less)
        } else if self.0 == other.0 {
            Some(Ordering::Equal)
        } else {
            Some(Ordering::Greater)
        }
    }
}

impl AddSpecImpl for Currency {
    open spec fn obeys_add_spec() -> bool {
        true
    }

    open spec fn add_req(self, rhs: Currency) -> bool {
        true
    }

    closed spec fn add_spec(self, rhs: Currency) -> Currency {
        Currency(clamp(self.0 + rhs.0))
    }
}

impl Add for Currency {
    type Output = Currency;

    /// The sum, stopped at the ends of the range.
    fn add(self, rhs: Currency) -> (sum: Currency)
        ensures
            sum@ == clamp(self@ + rhs@),
    {
        match self.0.checked_add(rhs.0) {
            Some(v) => Currency(v),
            None => if rhs.0 < 0 {
                Currency(i64::MIN)
            } else {
                Currency(i64::MAX)
            },
        }
    }
}

impl AddAssign for Currency {
    /// Adds `rhs` in place, stopping at the ends of the range.
    fn add_assign(&mut self, rhs: Currency)
        ensures
            final(self)@ == clamp(old(self)@ + rhs@),
    {
        let sum = match self.0.checked_add(rhs.0) {
            Some(v) => v,
            None => if rhs.0 < 0 {
                i64::MIN
            } else {
                i64::MAX
            },
        };
        self.0 = sum;
    }
}

impl SubAssign for Currency {
    /// Subtracts `rhs` in place, stopping at the ends of the range.
    fn sub_assign(&mut self, rhs: Currency)
        ensures
            final(self)@ == clamp(old(self)@ - rhs@),
    {
        let difference = match self.0.checked_sub(rhs.0) {
            Some(v) => v,
            None => if rhs.0 < 0 {
                i64::MAX
            } else {
                i64::MIN
            },
        };
        self.0 = difference;
    }
}

impl NegSpecImpl for Currency {
    open spec fn obeys_neg_spec() -> bool {
        true
    }

    open spec fn neg_req(self) -> bool {
        true
    }

    closed spec fn neg_spec(self) -> Currency {
        Currency(clamp(-self.0))
    }
}

impl Neg for Currency {
    type Output = Currency;

    /// The amount with its sign changed; the least amount turns into the
    /// greatest.
    fn neg(self) -> (negated: Currency)
        ensures
            negated@ == clamp(-self@),
    {
        if self.0 == i64::MIN {
            Currency(i64::MAX)
        } else {
            Currency(-self.0)
        }
    }
}

} // verus!
