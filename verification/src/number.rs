//! Decimal notation of signed 32-bit integers.

use vstd::prelude::*;

verus! {

/// True for the ten ASCII digits.
pub open spec fn is_digit(c: char) -> bool {
    '0' <= c && c <= '9'
}

/// The number that a digit stands for.
pub open spec fn digit_value(c: char) -> int {
    c as int - '0' as int
}

/// True if `s` holds digits only.
pub open spec fn all_digits(s: Seq<char>) -> bool {
    forall|i: int| 0 <= i < s.len() ==> is_digit(#[trigger] s[i])
}

/// The number that a row of digits denotes in base ten; `0` for the empty row.
pub open spec fn digits_value(s: Seq<char>) -> int
    decreases s.len(),
{
    if s.len() == 0 {
        0
    } else {
        10 * digits_value(s.drop_last()) + digit_value(s.last())
    }
}

/// True if `s` starts with a sign, `+` or `-`.
pub open spec fn has_sign(s: Seq<char>) -> bool {
    s.len() > 0 && (s[0] == '+' || s[0] == '-')
}

/// `s` without its sign, if it has one.
pub open spec fn unsigned_part(s: Seq<char>) -> Seq<char> {
    if has_sign(s) {
        s.drop_first()
    } else {
        s
    }
}

/// The integer that `s` denotes: an optional sign followed by at least one
/// digit and nothing else. Any other text denotes no integer.
pub open spec fn decimal(s: Seq<char>) -> Option<int> {
    let digits = unsigned_part(s);
    if digits.len() == 0 || !all_digits(digits) {
        None
    } else if s[0] == '-' {
        Some(-digits_value(digits))
    } else {
        Some(digits_value(digits))
    }
}

/// The 32-bit integer that `s` denotes, if it denotes an integer and that
/// integer is one of the 32-bit ones.
pub open spec fn decimal_i32(s: Seq<char>) -> Option<i32> {
    match decimal(s) {
        Some(v) => if i32::MIN <= v <= i32::MAX {
            Some(v as i32)
        } else {
            None
        },
        None => None,
    }
}

/// The digits of `s` among its first `k` characters.
spec fn digits_before(s: Seq<char>, k: int) -> Seq<char> {
    unsigned_part(s).take(if has_sign(s) && k > 0 { k - 1 } else { k })
}

/// A row of digits denotes at least as much as each of its prefixes, and
/// nothing negative.
pub proof fn lemma_digits_value_grows(s: Seq<char>, k: int)
    requires
        all_digits(s),
        0 <= k <= s.len(),
    ensures
        0 <= digits_value(s.take(k)) <= digits_value(s),
    decreases s.len() - k,
{
    if k == s.len() {
        assert(s.take(k) == s);
        lemma_digits_value_not_negative(s);
    } else {
        lemma_digits_value_grows(s.drop_last(), k);
        assert(s.drop_last().take(k) == s.take(k));
    }
}

/// A row of digits denotes nothing negative.
pub proof fn lemma_digits_value_not_negative(s: Seq<char>)
    requires
        all_digits(s),
    ensures
        0 <= digits_value(s),
    decreases s.len(),
{
    if s.len() > 0 {
        lemma_digits_value_not_negative(s.drop_last());
    }
}

/// The value of one digit, or `None` for any other character.
pub fn digit_of(c: char) -> (r: Option<i32>)
    ensures
        r is Some <==> is_digit(c),
        r matches Some(d) ==> d == digit_value(c),
{
    if c == '0' {
        Some(0)
    } else if c == '1' {
        Some(1)
    } else if c == '2' {
        Some(2)
    } else if c == '3' {
        Some(3)
    } else if c == '4' {
        Some(4)
    } else if c == '5' {
        Some(5)
    } else if c == '6' {
        Some(6)
    } else if c == '7' {
        Some(7)
    } else if c == '8' {
        Some(8)
    } else if c == '9' {
        Some(9)
    } else {
        None
    }
}

/// Reads `text` as a decimal 32-bit integer, as `str::parse::<i32>` does:
/// an optional `+` or `-`, then digits only; `None` for anything else and
/// for a number that 32 bits cannot hold.
pub fn parse_i32(text: &str) -> (r: Option<i32>)
    ensures
        r == decimal_i32(text@),
{
    let mut first = true;
    let mut negative = false;
    let mut any = false;
    let mut acc: i32 = 0;
    for c in it: text.chars()
        invariant
            it.seq() == text@,
            first == (it.index() == 0),
            negative == (it.index() > 0 && text@[0] == '-'),
            any == (digits_before(text@, it.index()).len() > 0),
            all_digits(digits_before(text@, it.index())),
            acc == if negative {
                -digits_value(digits_before(text@, it.index()))
            } else {
                digits_value(digits_before(text@, it.index()))
            },
    {
        let ghost k = it.index();
        let ghost seen = digits_before(text@, k);
        if first && (c == '+' || c == '-') {
            negative = c == '-';
        } else {
            let ghost grown = digits_before(text@, k + 1);
            let ghost whole = unsigned_part(text@);
            proof {
                assert(grown.drop_last() =~= seen);
                if all_digits(whole) {
                    lemma_digits_value_grows(whole, grown.len() as int);
                }
                lemma_digits_value_not_negative(seen);
            }
            let digit = match digit_of(c) {
                Some(digit) => digit,
                None => {
                    return None;
                },
            };
            let tenfold = match acc.checked_mul(10) {
                Some(tenfold) => tenfold,
                None => {
                    return None;
                },
            };
            let next = if negative {
                tenfold.checked_sub(digit)
            } else {
                tenfold.checked_add(digit)
            };
            acc = match next {
                Some(next) => next,
                None => {
                    return None;
                },
            };
            any = true;
        }
        first = false;
    }
    assert(digits_before(text@, text@.len() as int) =~= unsigned_part(text@));
    if any {
        Some(acc)
    } else {
        None
    }
}

} // verus!
