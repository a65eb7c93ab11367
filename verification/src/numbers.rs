//! Whole numbers in decimal notation.
use crate::chars::{digit, is_digit};
use crate::text::part;
use vstd::prelude::*;

verus! {

/// The digit with the value `d`.
pub open spec fn digit_char(d: int) -> char {
    (('0' as int) + d) as char
}

/// The value of a digit.
pub open spec fn digit_value(c: char) -> int {
    (c as int) - ('0' as int)
}

/// The decimal notation of a number, without leading zeros.
pub open spec fn decimal(n: nat) -> Seq<char>
    decreases n,
{
    if n < 10 {
        seq![digit_char(n as int)]
    } else {
        decimal(n / 10).push(digit_char((n % 10) as int))
    }
}

/// The decimal notation of a whole number: a minus sign where it is negative, then its size.
pub open spec fn signed_decimal(n: int) -> Seq<char> {
    if n < 0 {
        seq!['-'] + decimal((-n) as nat)
    } else {
        decimal(n as nat)
    }
}

/// `s` is a non-empty run of digits.
pub open spec fn is_number(s: Seq<char>) -> bool {
    s.len() > 0 && forall|i: int| 0 <= i < s.len() ==> is_digit(#[trigger] s[i])
}

/// The value of a run of digits.
pub open spec fn number_value(s: Seq<char>) -> int
    decreases s.len(),
{
    if s.len() == 0 {
        0
    } else {
        10 * number_value(s.drop_last()) + digit_value(s.last())
    }
}

/// The number that `s` writes: digits, with a sign in front where one is given. A plus sign is
/// always admitted, a minus sign where `signed` says so.
pub open spec fn written_number(s: Seq<char>, signed: bool) -> Option<int> {
    if s.len() > 0 && s[0] == '+' && is_number(s.skip(1)) {
        Some(number_value(s.skip(1)))
    } else if s.len() > 0 && s[0] == '-' && signed && is_number(s.skip(1)) {
        Some(-number_value(s.skip(1)))
    } else if is_number(s) {
        Some(number_value(s))
    } else {
        None
    }
}

/// What `s` writes, where that fits in 64 bits without a sign.
pub open spec fn parsed_u64(s: Seq<char>) -> Option<u64> {
    match written_number(s, false) {
        Some(n) => if n <= u64::MAX {
            Some(n as u64)
        } else {
            None
        },
        None => None,
    }
}

/// What `s` writes, where that fits in 64 bits with a sign.
pub open spec fn parsed_i64(s: Seq<char>) -> Option<i64> {
    match written_number(s, true) {
        Some(n) => if i64::MIN <= n <= i64::MAX {
            Some(n as i64)
        } else {
            None
        },
        None => None,
    }
}

/// A run of digits has a value that is not negative, and a longer run no smaller one.
pub proof fn number_value_grows(s: Seq<char>, i: int)
    requires
        is_number(s),
        0 <= i <= s.len(),
    ensures
        0 <= number_value(s.take(i)) <= number_value(s),
    decreases s.len(),
{
    if i == s.len() {
        assert(s.take(i) == s);
        if s.len() > 1 {
            assert(is_number(s.drop_last())) by {
                assert forall|j: int| 0 <= j < s.drop_last().len() implies is_digit(
                    #[trigger] s.drop_last()[j],
                ) by {
                    assert(s[j] == s.drop_last()[j]);
                }
            }
            number_value_grows(s.drop_last(), s.len() - 1);
            assert(s.drop_last().take(s.len() - 1) == s.drop_last());
        } else {
            assert(s.drop_last() == Seq::<char>::empty());
        }
        assert(is_digit(s[s.len() - 1]));
    } else {
        if s.len() > 1 {
            assert(is_number(s.drop_last())) by {
                assert forall|j: int| 0 <= j < s.drop_last().len() implies is_digit(
                    #[trigger] s.drop_last()[j],
                ) by {
                    assert(s[j] == s.drop_last()[j]);
                }
            }
            number_value_grows(s.drop_last(), i);
            assert(s.drop_last().take(i) == s.take(i));
        } else {
            assert(s.take(i) == Seq::<char>::empty());
            assert(s.drop_last() == Seq::<char>::empty());
        }
        assert(is_digit(s[s.len() - 1]));
    }
}

/// The decimal notation of a number is a run of digits with that value.
pub proof fn decimal_has_value(n: nat)
    ensures
        is_number(decimal(n)),
        number_value(decimal(n)) == n,
    decreases n,
{
    if n < 10 {
        assert(decimal(n).drop_last() == Seq::<char>::empty());
        assert(decimal(n).last() == digit_char(n as int));
        assert(number_value(Seq::<char>::empty()) == 0);
    } else {
        decimal_has_value(n / 10);
        assert(decimal(n).last() == digit_char((n % 10) as int));
        let head = decimal(n / 10);
        assert(decimal(n).drop_last() == head);
        assert forall|i: int| 0 <= i < decimal(n).len() implies is_digit(
            #[trigger] decimal(n)[i],
        ) by {
            if i < head.len() {
                assert(is_digit(head[i]));
            }
        }
    }
}

/// Reading the notation of a number gives the number back.
pub proof fn parse_of_decimal(n: u64)
    ensures
        parsed_u64(decimal(n as nat)) == Some(n),
{
    decimal_has_value(n as nat);
    assert(is_digit(decimal(n as nat)[0]));
}

/// The decimal notation of `n`.
pub fn decimal_of(n: u128) -> (out: String)
    ensures
        out@ == decimal(n as nat),
    decreases n,
{
    if n < 10 {
        let d: u8 = n as u8;
        let mut out = String::new();
        out.push((48 + d) as char);
        assert(out@ == seq![digit_char(n as int)]);
        out
    } else {
        let d: u8 = (n % 10) as u8;
        let mut out = decimal_of(n / 10);
        out.push((48 + d) as char);
        out
    }
}

/// The decimal notation of a count.
pub fn count_text(n: usize) -> (out: String)
    ensures
        out@ == decimal(n as nat),
{
    decimal_of(n as u128)
}

/// The decimal notation of a number with a sign.
pub fn signed_text(n: i128) -> (out: String)
    requires
        n > i128::MIN,
    ensures
        out@ == signed_decimal(n as int),
{
    if n < 0 {
        let size: i128 = -n;
        let digits = decimal_of(size as u128);
        let mut out = String::new();
        out.push('-');
        out.append(&digits);
        assert(out@ == seq!['-'] + digits@);
        out
    } else {
        decimal_of(n as u128)
    }
}

/// The value of a run of digits, where it is one and its value is at most `limit`.
fn digits_up_to(s: &[char], limit: u128) -> (out: Option<u128>)
    requires
        limit < 0x1_0000_0000_0000_0000,
    ensures
        match out {
            Some(n) => is_number(s@) && n == number_value(s@) && n <= limit,
            None => !is_number(s@) || number_value(s@) > limit,
        },
{
    if s.len() == 0 {
        return None;
    }
    let mut n: u128 = 0;
    let mut i: usize = 0;
    let mut over: bool = false;
    while i < s.len()
        invariant
            i <= s.len(),
            limit < 0x1_0000_0000_0000_0000,
            forall|j: int| 0 <= j < i ==> is_digit(#[trigger] s@[j]),
            over ==> (is_number(s@) ==> number_value(s@) > limit),
            !over ==> n == number_value(s@.take(i as int)) && n <= limit,
        decreases s.len() - i,
    {
        let c = s[i];
        if !digit(c) {
            assert(!is_digit(s@[i as int]));
            return None;
        }
        if !over {
            let d: u32 = c as u32 - 48;
            assert(s@.take(i + 1).drop_last() == s@.take(i as int));
            assert(s@.take(i + 1).last() == c);
            n = n * 10 + d as u128;
            assert(n == number_value(s@.take(i + 1)));
            if n > limit {
                over = true;
                proof {
                    if is_number(s@) {
                        number_value_grows(s@, i + 1);
                    }
                }
            }
        }
        i += 1;
    }
    assert(s@.take(s.len() as int) == s@);
    if over {
        None
    } else {
        Some(n)
    }
}

/// Reads a number without a sign.
pub fn parse_u64(s: &[char]) -> (out: Option<u64>)
    ensures
        out == parsed_u64(s@),
{
    let digits = if s.len() > 0 && s[0] == '+' {
        part(s, 1, s.len())
    } else {
        s
    };
    proof {
        if s@.len() > 0 && s@[0] == '+' {
            assert(!is_number(s@));
        }
    }
    match digits_up_to(digits, u64::MAX as u128) {
        Some(n) => Some(n as u64),
        None => None,
    }
}

/// Reads a number with a sign.
pub fn parse_i64(s: &[char]) -> (out: Option<i64>)
    ensures
        out == parsed_i64(s@),
{
    proof {
        if s@.len() > 0 && (s@[0] == '+' || s@[0] == '-') {
            assert(!is_number(s@));
        }
    }
    if s.len() > 0 && s[0] == '-' {
        proof {
            if is_number(s@.skip(1)) {
                number_value_grows(s@.skip(1), s@.skip(1).len() as int);
            }
        }
        match digits_up_to(part(s, 1, s.len()), 0x8000_0000_0000_0000) {
            Some(n) => {
                let m: i128 = n as i128;
                Some((-m) as i64)
            },
            None => None,
        }
    } else {
        let digits = if s.len() > 0 && s[0] == '+' {
            part(s, 1, s.len())
        } else {
            s
        };
        match digits_up_to(digits, i64::MAX as u128) {
            Some(n) => Some(n as i64),
            None => None,
        }
    }
}

/// A number is read with a sign before it: a minus sign makes it negative where that is admitted, a
/// plus sign changes nothing. What holds anything but digits behind its sign, or nothing, is no
/// number.
pub proof fn numbers_are_read_with_their_sign(n: nat, s: Seq<char>)
    ensures
        written_number(decimal(n), true) == Some(n as int),
        written_number(seq!['+'] + decimal(n), false) == Some(n as int),
        written_number(seq!['-'] + decimal(n), true) == Some(-(n as int)),
        written_number(seq!['-'] + decimal(n), false) is None,
        written_number(Seq::empty(), true) is None,
        s.len() > 1 && (exists|i: int| 0 < i < s.len() && !('0' <= #[trigger] s[i] <= '9'))
            ==> written_number(s, true) is None,
        n <= i64::MAX ==> parsed_i64(signed_decimal(-(n as int))) == Some((-(n as int)) as i64),
        n <= i64::MAX ==> parsed_i64(signed_decimal(n as int)) == Some(n as i64),
        n > u64::MAX ==> parsed_u64(decimal(n)) is None,
{
    let d = decimal(n);
    decimal_has_value(n);
    assert(is_digit(d[0]));
    let plus = seq!['+'] + d;
    let minus = seq!['-'] + d;
    assert(plus.skip(1) == d);
    assert(minus.skip(1) == d);
    assert(plus[0] == '+');
    assert(minus[0] == '-');
    assert(!is_digit(minus[0]));
    if s.len() > 1 && (exists|i: int| 0 < i < s.len() && !('0' <= #[trigger] s[i] <= '9')) {
        let i = choose|i: int| 0 < i < s.len() && !('0' <= #[trigger] s[i] <= '9');
        assert(s.skip(1)[i - 1] == s[i]);
        assert(!is_digit(s[i]));
        assert(!is_digit(s.skip(1)[i - 1]));
    }
}

} // verus!
