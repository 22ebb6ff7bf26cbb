//! Parsing a signed decimal integer out of an argument string: an optional
//! sign, then one or more digits, and the value must fit the 32-bit range —
//! exactly the inputs the `exit` built-in accepts as a status code.

use vstd::prelude::*;

verus! {

/// Whether `c` is a decimal digit.
pub open spec fn is_digit(c: char) -> bool {
    48 <= c as int <= 57
}

/// The numeric value of a digit character.
pub open spec fn digit_val(c: char) -> int {
    c as int - 48
}

/// The value of a digit string, most significant first.
pub open spec fn digits_val(s: Seq<char>) -> int
    decreases s.len(),
{
    if s.len() == 0 {
        0
    } else {
        digits_val(s.drop_last()) * 10 + digit_val(s.last())
    }
}

/// Whether every character of `s` is a decimal digit.
pub open spec fn all_digits(s: Seq<char>) -> bool {
    forall|j: int| 0 <= j < s.len() ==> is_digit(#[trigger] s[j])
}

/// The mathematical value of a decimal literal: an optional sign followed
/// by at least one digit; anything else has none.
pub open spec fn int_literal_spec(s: Seq<char>) -> Option<int> {
    let digits = if s.len() > 0 && (s[0] == '-' || s[0] == '+') {
        s.skip(1)
    } else {
        s
    };
    if digits.len() > 0 && all_digits(digits) {
        if s.len() > 0 && s[0] == '-' {
            Some(-digits_val(digits))
        } else {
            Some(digits_val(digits))
        }
    } else {
        None::<int>
    }
}

/// The decimal literal as a 32-bit value; nothing when malformed or out of
/// range.
pub open spec fn parse_i32_spec(s: Seq<char>) -> Option<i32> {
    match int_literal_spec(s) {
        Some(v) => if i32::MIN <= v <= i32::MAX {
            Some(v as i32)
        } else {
            None::<i32>
        },
        None => None::<i32>,
    }
}

/// A digit string's value is never negative.
proof fn lemma_digits_val_nonneg(s: Seq<char>)
    requires
        all_digits(s),
    ensures
        digits_val(s) >= 0,
    decreases s.len(),
{
    if s.len() > 0 {
        assert(forall|j: int|
            0 <= j < s.len() - 1 ==> is_digit(#[trigger] s.drop_last()[j]));
        lemma_digits_val_nonneg(s.drop_last());
    }
}

/// Extending a digit string never shrinks its value.
proof fn lemma_digits_val_mono(s: Seq<char>, m: int)
    requires
        all_digits(s),
        0 <= m <= s.len(),
    ensures
        digits_val(s.take(m)) <= digits_val(s),
    decreases s.len(),
{
    if m < s.len() {
        assert(forall|j: int|
            0 <= j < s.len() - 1 ==> is_digit(#[trigger] s.drop_last()[j]));
        lemma_digits_val_mono(s.drop_last(), m);
        assert(s.drop_last().take(m) =~= s.take(m));
        lemma_digits_val_nonneg(s.drop_last());
        assert(digits_val(s) == digits_val(s.drop_last()) * 10 + digit_val(s.last()));
        assert(digits_val(s.drop_last()) * 10 >= digits_val(s.drop_last()));
        assert(digit_val(s.last()) >= 0);
    } else {
        assert(s.take(m) =~= s);
    }
}

/// Parses `s` as a signed 32-bit decimal integer, exactly as the value of
/// the literal when it is well-formed and in range.
pub fn parse_i32(s: &str) -> (r: Option<i32>)
    ensures
        r == parse_i32_spec(s@),
{
    let n = s.unicode_len();
    if n == 0 {
        return None;
    }
    let c0 = s.get_char(0);
    let neg = c0 == '-';
    let start: usize = if c0 == '-' || c0 == '+' {
        1
    } else {
        0
    };
    let ghost digits = if c0 == '-' || c0 == '+' {
        s@.skip(1)
    } else {
        s@
    };
    proof {
        assert(digits =~= s@.subrange(start as int, n as int));
    }
    if start == n {
        return None;
    }
    let mut acc: i64 = 0;
    let mut i: usize = start;
    while i < n
        invariant
            n == s@.len(),
            start <= i <= n,
            start < n,
            (s@[0] == '-' || s@[0] == '+') ==> start == 1,
            !(s@[0] == '-' || s@[0] == '+') ==> start == 0,
            neg == (s@[0] == '-'),
            digits =~= s@.subrange(start as int, n as int),
            all_digits(s@.subrange(start as int, i as int)),
            acc == digits_val(s@.subrange(start as int, i as int)),
            0 <= acc <= 2147483648,
        decreases n - i,
    {
        let c = s.get_char(i);
        let d = c as u32;
        let ghost prefix = s@.subrange(start as int, i as int);
        let ghost prefix1 = s@.subrange(start as int, i + 1);
        proof {
            assert(prefix1.drop_last() =~= prefix);
            assert(prefix1.last() == s@[i as int]);
        }
        if d < 48 || d > 57 {
            proof {
                assert(!is_digit(s@[i as int]));
                assert(digits[i - start] == s@[i as int]);
                assert(!all_digits(digits));
            }
            return None;
        }
        acc = acc * 10 + ((d - 48) as i64);
        proof {
            assert(all_digits(prefix1));
        }
        if acc > 2147483648 {
            proof {
                assert(acc == digits_val(prefix1));
                if all_digits(digits) {
                    lemma_digits_val_mono(digits, i + 1 - start);
                    assert(digits.take(i + 1 - start) =~= prefix1);
                    assert(digits_val(digits) >= acc);
                    assert(digits_val(digits) > 2147483648);
                    if s@[0] == '-' {
                        assert(int_literal_spec(s@) == Some(-digits_val(digits)));
                        assert(-digits_val(digits) < i32::MIN);
                    } else {
                        assert(s@.subrange(0, n as int) =~= s@);
                        assert(int_literal_spec(s@) == Some(digits_val(digits)));
                        assert(digits_val(digits) > i32::MAX);
                    }
                } else {
                    assert(int_literal_spec(s@) is None);
                }
            }
            return None;
        }
        i = i + 1;
    }
    proof {
        assert(s@.subrange(start as int, n as int) =~= digits);
        assert(acc == digits_val(digits));
        assert(all_digits(digits));
    }
    if neg {
        let code = (-acc) as i32;
        proof {
            assert(digits.len() > 0);
            assert(int_literal_spec(s@) == Some(-digits_val(digits)));
            assert(i32::MIN <= -digits_val(digits) <= i32::MAX);
            assert(code as int == -digits_val(digits));
        }
        return Some(code);
    }
    if acc == 2147483648 {
        return None;
    }
    Some(acc as i32)
}

} // verus!
