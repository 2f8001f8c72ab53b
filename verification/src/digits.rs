//! Parsing of the decimal integer strings that on-chain payloads use for
//! timestamps and upgrade sequence numbers: an optional leading sign
//! followed by digits, as the relational `int64` columns admit.

use vstd::prelude::*;
use vstd::string::*;

verus! {

/// `c` is a decimal digit.
pub open spec fn is_digit(c: char) -> bool {
    48 <= c as int && c as int <= 57
}

/// The numeric value of a digit character.
pub open spec fn digit_val(c: char) -> int {
    c as int - 48
}

/// Every character of `s` is a decimal digit.
pub open spec fn all_digits(s: Seq<char>) -> bool {
    forall|i: int| 0 <= i < s.len() ==> is_digit(#[trigger] s[i])
}

/// The number that the digit string `s` denotes, most significant digit
/// first.
pub open spec fn digits_val(s: Seq<char>) -> int
    decreases s.len(),
{
    if s.len() == 0 {
        0
    } else {
        digits_val(s.drop_last()) * 10 + digit_val(s.last())
    }
}

/// A digit string denotes a non-negative number.
pub proof fn lemma_digits_val_nonneg(s: Seq<char>)
    requires
        all_digits(s),
    ensures
        digits_val(s) >= 0,
    decreases s.len(),
{
    if s.len() > 0 {
        assert(all_digits(s.drop_last()));
        lemma_digits_val_nonneg(s.drop_last());
    }
}

/// Extending a digit string on the right never decreases its value.
pub proof fn lemma_digits_val_take_le(s: Seq<char>, i: int)
    requires
        all_digits(s),
        0 <= i <= s.len(),
    ensures
        digits_val(s.take(i)) <= digits_val(s),
    decreases s.len() - i,
{
    if i < s.len() {
        assert(all_digits(s.take(i)));
        lemma_digits_val_nonneg(s.take(i));
        assert(s.take(i + 1).drop_last() =~= s.take(i));
        assert(digits_val(s.take(i + 1)) == digits_val(s.take(i)) * 10 + digit_val(s.take(i + 1).last()));
        lemma_digits_val_take_le(s, i + 1);
    } else {
        assert(s.take(i) =~= s);
    }
}

/// `s` is a decimal integer: an optional leading sign followed by at
/// least one digit.
pub open spec fn is_signed_decimal(s: Seq<char>) -> bool {
    if s.len() == 0 {
        false
    } else if s[0] == '-' || s[0] == '+' {
        s.len() > 1 && all_digits(s.subrange(1, s.len() as int))
    } else {
        all_digits(s)
    }
}

/// The number a signed decimal string denotes.
pub open spec fn signed_decimal_val(s: Seq<char>) -> int {
    if s.len() > 0 && s[0] == '-' {
        -digits_val(s.subrange(1, s.len() as int))
    } else if s.len() > 0 && s[0] == '+' {
        digits_val(s.subrange(1, s.len() as int))
    } else {
        digits_val(s)
    }
}

/// The value fits an `i64` column.
pub open spec fn in_i64_range(v: int) -> bool {
    i64::MIN <= v <= i64::MAX
}

/// Parses a decimal integer — an optional leading sign and at least one
/// digit — as an `i64`.
///
/// Returns `Some` exactly when the string has that shape and its value
/// fits the column type; anything else is rejected.
pub fn parse_i64_decimal(s: &str) -> (r: Option<i64>)
    ensures
        match r {
            Some(n) => is_signed_decimal(s@) && in_i64_range(signed_decimal_val(s@)) && n
                == signed_decimal_val(s@),
            None => !is_signed_decimal(s@) || !in_i64_range(signed_decimal_val(s@)),
        },
{
    let len: usize = s.unicode_len();
    if len == 0 {
        return None;
    }
    let first: char = s.get_char(0);
    let negative: bool = first == '-';
    let digits: &str = if first == '-' || first == '+' {
        s.substring_char(1, len)
    } else {
        s
    };
    let dlen: usize = digits.unicode_len();
    if dlen == 0 {
        return None;
    }
    let mut acc: i64 = 0;
    let mut i: usize = 0;
    while i < dlen
        invariant
            i <= dlen,
            dlen == digits@.len(),
            dlen >= 1,
            s@.len() >= 1,
            negative == (s@[0] == '-'),
            (s@[0] == '-' || s@[0] == '+') ==> digits@ == s@.subrange(1, s@.len() as int),
            !(s@[0] == '-' || s@[0] == '+') ==> digits@ == s@,
            all_digits(digits@.take(i as int)),
            negative ==> acc == -digits_val(digits@.take(i as int)) && acc <= 0,
            !negative ==> acc == digits_val(digits@.take(i as int)) && acc >= 0,
        decreases dlen - i,
    {
        let c: char = digits.get_char(i);
        let d: u32 = c as u32;
        if d < 48 || d > 57 {
            assert(!is_digit(digits@[i as int]));
            return None;
        }
        let dv: i64 = (d - 48) as i64;
        proof {
            assert(digits@.take(i + 1).drop_last() =~= digits@.take(i as int));
            assert(digits@.take(i + 1).last() == digits@[i as int]);
            assert(all_digits(digits@.take(i + 1)));
        }
        let shifted: i64 = match acc.checked_mul(10) {
            Some(x) => x,
            None => {
                proof {
                    if all_digits(digits@) {
                        lemma_digits_val_take_le(digits@, i + 1);
                    }
                }
                return None;
            },
        };
        let next: i64 = if negative {
            match shifted.checked_sub(dv) {
                Some(x) => x,
                None => {
                    proof {
                        if all_digits(digits@) {
                            lemma_digits_val_take_le(digits@, i + 1);
                        }
                    }
                    return None;
                },
            }
        } else {
            match shifted.checked_add(dv) {
                Some(x) => x,
                None => {
                    proof {
                        if all_digits(digits@) {
                            lemma_digits_val_take_le(digits@, i + 1);
                        }
                    }
                    return None;
                },
            }
        };
        acc = next;
        i = i + 1;
    }
    proof {
        assert(digits@.take(dlen as int) =~= digits@);
    }
    Some(acc)
}

} // verus!
