//! Comparison of strings and the reading of decimal numerals.

use vstd::prelude::*;

verus! {

/// Whether two strings hold the same characters.
pub fn same_text(a: &str, b: &str) -> (r: bool)
    ensures
        r == (a@ == b@),
{
    let left = a.as_bytes();
    let right = b.as_bytes();
    proof {
        vstd::utf8::encode_utf8_decode_utf8(a@);
        vstd::utf8::encode_utf8_decode_utf8(b@);
    }
    if left.len() != right.len() {
        return false;
    }
    let mut i: usize = 0;
    while i < left.len()
        invariant
            i <= left@.len(),
            left@.len() == right@.len(),
            left@ == vstd::utf8::encode_utf8(a@),
            right@ == vstd::utf8::encode_utf8(b@),
            forall|j: int| 0 <= j < i ==> left@[j] == right@[j],
        decreases left@.len() - i,
    {
        if left[i] != right[i] {
            return false;
        }
        i = i + 1;
    }
    assert(left@ =~= right@);
    true
}

/// Whether `c` is one of the ten decimal digits.
pub open spec fn is_digit(c: char) -> bool {
    '0' <= c && c <= '9'
}

/// The number that the digit `c` stands for.
pub open spec fn digit_value(c: char) -> nat {
    (c as int - '0' as int) as nat
}

/// Whether every character of `s` is a decimal digit.
pub open spec fn all_digits(s: Seq<char>) -> bool {
    forall|i: int| 0 <= i < s.len() ==> is_digit(#[trigger] s[i])
}

/// The number that a run of decimal digits denotes, most significant first.
pub open spec fn decimal(s: Seq<char>) -> nat
    decreases s.len(),
{
    if s.len() == 0 {
        0
    } else {
        decimal(s.drop_last()) * 10 + digit_value(s.last())
    }
}

/// The value of a numeral made of digits only: one digit at least, and no
/// more than `limit`.
pub open spec fn digits_literal(s: Seq<char>, limit: nat) -> Option<nat> {
    if s.len() > 0 && all_digits(s) && decimal(s) <= limit {
        Some(decimal(s))
    } else {
        None
    }
}

/// The value of an unsigned numeral: digits, which a `+` may precede.
pub open spec fn natural_literal(s: Seq<char>, limit: nat) -> Option<nat> {
    if s.len() > 0 && s[0] == '+' {
        digits_literal(s.skip(1), limit)
    } else {
        digits_literal(s, limit)
    }
}

/// The value of a signed numeral: digits, which a `+` or a `-` may precede,
/// with a value from `-below` to `above`.
pub open spec fn integer_literal(s: Seq<char>, below: nat, above: nat) -> Option<int> {
    if s.len() > 0 && s[0] == '-' {
        match digits_literal(s.skip(1), below) {
            Some(n) => Some(-(n as int)),
            None => None,
        }
    } else {
        match natural_literal(s, above) {
            Some(n) => Some(n as int),
            None => None,
        }
    }
}

/// A numeral's value never falls when digits are appended to it.
pub proof fn lemma_decimal_grows(s: Seq<char>, k: int)
    requires
        0 <= k <= s.len(),
    ensures
        decimal(s.take(k)) <= decimal(s),
    decreases s.len() - k,
{
    if k == s.len() {
        assert(s.take(k) =~= s);
    } else {
        lemma_decimal_grows(s, k + 1);
        assert(s.take(k + 1).drop_last() =~= s.take(k));
    }
}

/// Reads the characters of `s` from position `from` up to `to` as a numeral
/// made of digits only, with a value of at most `limit`.
pub fn read_digits(s: &str, from: usize, to: usize, limit: u64) -> (r: Option<u64>)
    requires
        from <= to <= s@.len(),
    ensures
        r == match digits_literal(s@.subrange(from as int, to as int), limit as nat) {
            Some(n) => Some(n as u64),
            None => None::<u64>,
        },
{
    if from >= to {
        return None;
    }
    let ghost run = s@.subrange(from as int, to as int);
    let mut value: u64 = 0;
    let mut i: usize = from;
    while i < to
        invariant
            from <= i <= to <= s@.len(),
            run == s@.subrange(from as int, to as int),
            all_digits(run.take(i - from)),
            value == decimal(run.take(i - from)),
            value <= limit,
        decreases to - i,
    {
        let c = s.get_char(i);
        let code = c as u32;
        proof {
            assert(run.take(i - from + 1).drop_last() =~= run.take(i - from));
        }
        if code < 48 || code > 57 {
            proof {
                assert(!is_digit(run[i - from]));
            }
            return None;
        }
        let digit = (code - 48) as u64;
        if value > limit / 10 || digit > limit - value * 10 {
            proof {
                lemma_decimal_grows(run, i - from + 1);
            }
            return None;
        }
        value = value * 10 + digit;
        proof {
            assert forall|j: int| 0 <= j < run.take(i - from + 1).len() implies is_digit(
                #[trigger] run.take(i - from + 1)[j],
            ) by {}
        }
        i = i + 1;
    }
    proof {
        assert(run.take(to - from) =~= run);
    }
    Some(value)
}

/// Reads `s` as an unsigned numeral of at most `limit`: digits, which a `+`
/// may precede.
pub fn read_natural(s: &str, limit: u64) -> (r: Option<u64>)
    ensures
        r == match natural_literal(s@, limit as nat) {
            Some(n) => Some(n as u64),
            None => None::<u64>,
        },
{
    let n = s.unicode_len();
    if n > 0 && s.get_char(0) == '+' {
        read_digits(s, 1, n, limit)
    } else {
        proof {
            assert(s@.subrange(0, n as int) =~= s@);
        }
        read_digits(s, 0, n, limit)
    }
}

/// Reads `s` as a signed numeral from `-below` to `above`: digits, which a
/// `+` or a `-` may precede.
pub fn read_integer(s: &str, below: u64, above: u64) -> (r: Option<i64>)
    requires
        below <= 0x8000_0000_0000_0000,
        above <= 0x7fff_ffff_ffff_ffff,
    ensures
        r == match integer_literal(s@, below as nat, above as nat) {
            Some(n) => Some(n as i64),
            None => None::<i64>,
        },
{
    let n = s.unicode_len();
    if n > 0 && s.get_char(0) == '-' {
        match read_digits(s, 1, n, below) {
            Some(m) => {
                if m == 0x8000_0000_0000_0000 {
                    Some(i64::MIN)
                } else {
                    Some(-(m as i64))
                }
            },
            None => None,
        }
    } else {
        match read_natural(s, above) {
            Some(m) => Some(m as i64),
            None => None,
        }
    }
}

} // verus!
