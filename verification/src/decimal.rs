//! Decimal digits as text: what a run of digits is worth, how a number is
//! written, and the executable readers and writers that agree with both.

use vstd::prelude::*;
use vstd::slice::slice_subrange;

verus! {

/// `c` is one of the ASCII digits `0` to `9`.
pub open spec fn is_digit(c: char) -> bool {
    '0' <= c && c <= '9'
}

/// The number a digit stands for.
pub open spec fn digit_value(c: char) -> int {
    c as int - '0' as int
}

/// The digit that stands for `d`, for `0 <= d <= 9`.
pub open spec fn digit_char(d: int) -> char {
    (d + '0' as int) as char
}

/// Every character of `s` is a digit. Holds of the empty sequence.
pub open spec fn all_digits(s: Seq<char>) -> bool {
    forall|i: int| 0 <= i < s.len() ==> is_digit(#[trigger] s[i])
}

/// The number written by the digits `s`, most significant first; 0 for no
/// digits. Leading zeros do not change it.
pub open spec fn digits_value(s: Seq<char>) -> int
    decreases s.len(),
{
    if s.len() == 0 {
        0
    } else {
        digits_value(s.drop_last()) * 10 + digit_value(s.last())
    }
}

/// `10` to the power `k`.
pub open spec fn pow10(k: nat) -> int
    decreases k,
{
    if k == 0 {
        1
    } else {
        10 * pow10((k - 1) as nat)
    }
}

/// `n` written in decimal without leading zeros; `0` is written `0`.
pub open spec fn number_text(n: nat) -> Seq<char>
    decreases n,
{
    if n < 10 {
        seq![digit_char(n as int)]
    } else {
        number_text(n / 10).push(digit_char((n % 10) as int))
    }
}

/// The last `width` decimal digits of `n`, zero-padded on the left.
pub open spec fn fixed_text(n: nat, width: nat) -> Seq<char>
    decreases width,
{
    if width == 0 {
        Seq::empty()
    } else {
        fixed_text(n / 10, (width - 1) as nat).push(digit_char((n % 10) as int))
    }
}

/// What `text` is worth as a number: `Some` when it is one or more digits
/// whose value is at most `limit`, `None` otherwise.
pub open spec fn number_of_digits(text: Seq<char>, limit: int) -> Option<int> {
    if text.len() > 0 && all_digits(text) && digits_value(text) <= limit {
        Some(digits_value(text))
    } else {
        None
    }
}

/// What `text` is worth as an unsigned integer: an optional `+`, then one or
/// more digits, worth at most `limit`.
pub open spec fn unsigned_of_text(text: Seq<char>, limit: int) -> Option<int> {
    if text.len() > 0 && text[0] == '+' {
        number_of_digits(text.skip(1), limit)
    } else {
        number_of_digits(text, limit)
    }
}

/// A run of digits is worth at least 0 and less than 10 to its length.
pub proof fn lemma_digits_value_bound(s: Seq<char>)
    requires
        all_digits(s),
    ensures
        0 <= digits_value(s) < pow10(s.len()),
    decreases s.len(),
{
    if s.len() == 0 {
    } else {
        let front = s.drop_last();
        assert(all_digits(front)) by {
            assert forall|i: int| 0 <= i < front.len() implies is_digit(#[trigger] front[i]) by {
                assert(front[i] == s[i]);
            }
        }
        lemma_digits_value_bound(front);
        assert(is_digit(s[s.len() - 1]));
    }
}

/// Among digits, a prefix is worth no more than the whole.
pub proof fn lemma_digits_value_prefix(s: Seq<char>, k: int)
    requires
        all_digits(s),
        0 <= k <= s.len(),
    ensures
        0 <= digits_value(s.take(k)) <= digits_value(s),
    decreases s.len() - k,
{
    assert(all_digits(s.take(k))) by {
        assert forall|i: int| 0 <= i < s.take(k).len() implies is_digit(#[trigger] s.take(k)[i]) by {
            assert(s.take(k)[i] == s[i]);
        }
    }
    lemma_digits_value_bound(s.take(k));
    if k == s.len() {
        assert(s.take(k) =~= s);
    } else {
        lemma_digits_value_prefix(s, k + 1);
        assert(s.take(k + 1).drop_last() =~= s.take(k));
        assert(is_digit(s[k]));
        assert(s.take(k + 1).last() == s[k]);
    }
}

/// `number_text` writes digits only, at least one, and they are worth `n`.
pub proof fn lemma_number_text(n: nat)
    ensures
        number_text(n).len() >= 1,
        all_digits(number_text(n)),
        digits_value(number_text(n)) == n,
    decreases n,
{
    if n < 10 {
        let s = number_text(n);
        assert(s.drop_last() =~= Seq::<char>::empty());
        assert(digits_value(s.drop_last()) == 0);
    } else {
        lemma_number_text(n / 10);
        let front = number_text(n / 10);
        let s = number_text(n);
        assert(s.drop_last() =~= front);
        assert forall|i: int| 0 <= i < s.len() implies is_digit(#[trigger] s[i]) by {
            if i < front.len() {
                assert(s[i] == front[i]);
            }
        }
    }
}

/// `fixed_text` writes exactly `width` digits, and they are worth `n` when
/// `n` has no more than `width` digits.
pub proof fn lemma_fixed_text(n: nat, width: nat)
    ensures
        fixed_text(n, width).len() == width,
        all_digits(fixed_text(n, width)),
        n < pow10(width) ==> digits_value(fixed_text(n, width)) == n,
    decreases width,
{
    if width == 0 {
    } else {
        let w = (width - 1) as nat;
        lemma_fixed_text(n / 10, w);
        let front = fixed_text(n / 10, w);
        let s = fixed_text(n, width);
        assert(s.drop_last() =~= front);
        assert forall|i: int| 0 <= i < s.len() implies is_digit(#[trigger] s[i]) by {
            if i < front.len() {
                assert(s[i] == front[i]);
            }
        }
    }
}

/// The number a digit stands for, or `None` for any other character.
pub fn digit_of(c: char) -> (r: Option<u64>)
    ensures
        r is Some <==> is_digit(c),
        r matches Some(d) ==> d == digit_value(c) && d <= 9,
{
    if '0' <= c && c <= '9' {
        Some((c as u64) - ('0' as u64))
    } else {
        None
    }
}

/// Reads `text` as one or more digits worth at most `limit`.
pub fn parse_digits(text: &[char], limit: u64) -> (r: Option<u64>)
    ensures
        r is Some <==> number_of_digits(text@, limit as int) is Some,
        r matches Some(n) ==> number_of_digits(text@, limit as int) == Some(n as int),
{
    let n = text.len();
    if n == 0 {
        return None;
    }
    let mut acc: u64 = 0;
    let mut i: usize = 0;
    while i < n
        invariant
            i <= n,
            n == text@.len(),
            all_digits(text@.take(i as int)),
            acc == digits_value(text@.take(i as int)),
            acc <= limit,
        decreases n - i,
    {
        let ghost before = text@.take(i as int);
        let ghost after = text@.take(i + 1);
        proof {
            assert(after.drop_last() =~= before);
            assert(after.last() == text@[i as int]);
        }
        let d = match digit_of(text[i]) {
            Some(d) => d,
            None => {
                return None;
            },
        };
        proof {
            assert forall|j: int| 0 <= j < after.len() implies is_digit(#[trigger] after[j]) by {
                if j < i {
                    assert(before[j] == after[j]);
                }
            }
        }
        if d > limit || acc > (limit - d) / 10 {
            proof {
                if all_digits(text@) {
                    lemma_digits_value_prefix(text@, i + 1);
                }
            }
            return None;
        }
        acc = acc * 10 + d;
        i += 1;
    }
    proof {
        assert(text@.take(n as int) =~= text@);
    }
    Some(acc)
}

/// Reads `text` as an unsigned integer worth at most `limit`: an optional
/// `+`, then one or more digits.
pub fn parse_unsigned(text: &[char], limit: u64) -> (r: Option<u64>)
    ensures
        r is Some <==> unsigned_of_text(text@, limit as int) is Some,
        r matches Some(n) ==> unsigned_of_text(text@, limit as int) == Some(n as int),
{
    let n = text.len();
    if n > 0 && text[0] == '+' {
        assert(text@.subrange(1, n as int) =~= text@.skip(1));
        parse_digits(slice_subrange(text, 1, n), limit)
    } else {
        parse_digits(text, limit)
    }
}

/// The one-character text of the digit `d`.
pub fn digit_text(d: u64) -> (t: &'static str)
    requires
        d <= 9,
    ensures
        t@ == seq![digit_char(d as int)],
{
    proof {
        reveal_strlit("0");
        reveal_strlit("1");
        reveal_strlit("2");
        reveal_strlit("3");
        reveal_strlit("4");
        reveal_strlit("5");
        reveal_strlit("6");
        reveal_strlit("7");
        reveal_strlit("8");
        reveal_strlit("9");
    }
    let t = if d == 0 {
        "0"
    } else if d == 1 {
        "1"
    } else if d == 2 {
        "2"
    } else if d == 3 {
        "3"
    } else if d == 4 {
        "4"
    } else if d == 5 {
        "5"
    } else if d == 6 {
        "6"
    } else if d == 7 {
        "7"
    } else if d == 8 {
        "8"
    } else {
        "9"
    };
    assert(t@ =~= seq![digit_char(d as int)]);
    t
}

/// Appends `n` in decimal, without leading zeros, to `out`.
pub fn push_number(out: &mut String, n: u64)
    ensures
        final(out)@ == old(out)@ + number_text(n as nat),
    decreases n,
{
    if n >= 10 {
        push_number(out, n / 10);
    }
    out.append(digit_text(n % 10));
    assert(out@ =~= old(out)@ + number_text(n as nat));
}

/// Appends the last `width` decimal digits of `n`, zero-padded, to `out`.
pub fn push_fixed(out: &mut String, n: u64, width: usize)
    ensures
        final(out)@ == old(out)@ + fixed_text(n as nat, width as nat),
    decreases width,
{
    if width > 0 {
        push_fixed(out, n / 10, width - 1);
        out.append(digit_text(n % 10));
    }
    assert(out@ =~= old(out)@ + fixed_text(n as nat, width as nat));
}

} // verus!
