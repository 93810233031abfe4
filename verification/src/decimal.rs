use crate::text::to_chars;
use vstd::prelude::*;
use vstd::string::StringExecFns;

verus! {

/// The character that writes the digit `d`.
pub open spec fn digit_char(d: int) -> char {
    if d == 0 {
        '0'
    } else if d == 1 {
        '1'
    } else if d == 2 {
        '2'
    } else if d == 3 {
        '3'
    } else if d == 4 {
        '4'
    } else if d == 5 {
        '5'
    } else if d == 6 {
        '6'
    } else if d == 7 {
        '7'
    } else if d == 8 {
        '8'
    } else {
        '9'
    }
}

/// `n` written in base ten, without sign or leading zeros.
pub open spec fn digits_of(n: nat) -> Seq<char>
    decreases n,
{
    if n < 10 {
        seq![digit_char(n as int)]
    } else {
        digits_of(n / 10).push(digit_char((n % 10) as int))
    }
}

/// `n` in base ten, with a zero in front where it has one digit only.
pub open spec fn two_digits_of(n: nat) -> Seq<char> {
    if n < 10 {
        seq!['0'] + digits_of(n)
    } else {
        digits_of(n)
    }
}

/// `c` is one of the ten digits.
pub open spec fn is_digit(c: char) -> bool {
    '0' <= c <= '9'
}

/// The number that the digit `c` stands for.
pub open spec fn digit_value(c: char) -> int {
    c as u32 - 0x30
}

/// Every character of `s` is a digit.
pub open spec fn all_digits(s: Seq<char>) -> bool {
    forall|i: int| 0 <= i < s.len() ==> is_digit(#[trigger] s[i])
}

/// The number that the digits of `s` write in base ten.
pub open spec fn digits_value(s: Seq<char>) -> int
    decreases s.len(),
{
    if s.len() == 0 {
        0
    } else {
        digits_value(s.drop_last()) * 10 + digit_value(s.last())
    }
}

/// What is left of `s` behind its sign.
pub open spec fn unsigned_part(s: Seq<char>) -> Seq<char> {
    if s.len() > 0 && (s[0] == '-' || s[0] == '+') {
        s.skip(1)
    } else {
        s
    }
}

/// The 64-bit signed number that `s` writes: an optional sign, then at least one
/// digit and nothing else, within the range of the type.
pub open spec fn decimal_i64(s: Seq<char>) -> Option<i64> {
    let body = unsigned_part(s);
    let magnitude = digits_value(body);
    let value = if s.len() > 0 && s[0] == '-' {
        -magnitude
    } else {
        magnitude
    };
    if body.len() == 0 || !all_digits(body) || value < i64::MIN || value > i64::MAX {
        None
    } else {
        Some(value as i64)
    }
}

/// The text of one digit.
fn digit_str(d: u64) -> (r: &'static str)
    requires
        d < 10,
    ensures
        r@ == seq![digit_char(d as int)],
{
    proof {
        reveal_strlit("0");
        reveal_strlit("1");
        reveal_strlit("2");
        reveal_strlit("3");
        reveal_strlit("4");
        reveal_strlit("5");
        reveal_strlit("6");
        reveal_strlit("7");
        reveal_strlit("8");
        reveal_strlit("9");
    }
    let r = if d == 0 {
        "0"
    } else if d == 1 {
        "1"
    } else if d == 2 {
        "2"
    } else if d == 3 {
        "3"
    } else if d == 4 {
        "4"
    } else if d == 5 {
        "5"
    } else if d == 6 {
        "6"
    } else if d == 7 {
        "7"
    } else if d == 8 {
        "8"
    } else {
        "9"
    };
    assert(r@ =~= seq![digit_char(d as int)]);
    r
}

/// Writes `n` in base ten.
pub fn decimal(n: u64) -> (r: String)
    ensures
        r@ == digits_of(n as nat),
{
    let mut out = String::from_str(digit_str(n % 10));
    let mut rest: u64 = n / 10;
    assert(digits_of(n as nat) == if rest == 0 {
        out@
    } else {
        digits_of(rest as nat) + out@
    });
    while rest > 0
        invariant
            digits_of(n as nat) == if rest == 0 {
                out@
            } else {
                digits_of(rest as nat) + out@
            },
        decreases rest,
    {
        let head = String::from_str(digit_str(rest % 10));
        let ghost before = out@;
        out = head.concat(out.as_str());
        assert(digits_of(rest as nat) + before == if rest / 10 == 0 {
            out@
        } else {
            digits_of((rest / 10) as nat) + out@
        });
        rest = rest / 10;
    }
    out
}

/// Writes `n` in base ten with at least two digits.
pub fn two_digits(n: u32) -> (r: String)
    ensures
        r@ == two_digits_of(n as nat),
{
    let body = decimal(n as u64);
    if n < 10 {
        proof {
            reveal_strlit("0");
        }
        let r = String::from_str("0").concat(body.as_str());
        assert(r@ =~= seq!['0'] + digits_of(n as nat));
        r
    } else {
        body
    }
}

/// Reads a 64-bit signed number in base ten.
pub fn parse_i64(s: &str) -> (r: Option<i64>)
    ensures
        r == decimal_i64(s@),
{
    let chars = to_chars(s);
    let n: usize = chars.len();
    let signed: bool = n > 0 && (chars[0] == '-' || chars[0] == '+');
    let negative: bool = n > 0 && chars[0] == '-';
    let start: usize = if signed {
        1
    } else {
        0
    };
    let ghost body = unsigned_part(s@);
    assert(body == s@.skip(start as int));
    if start == n {
        return None;
    }
    let limit: u128 = 0x8000_0000_0000_0000;
    let mut acc: u128 = 0;
    let mut over: bool = false;
    let mut i: usize = start;
    assert(body.take(0) =~= Seq::<char>::empty());
    while i < n
        invariant
            start <= i <= n,
            n == chars.len(),
            chars@ == s@,
            body == s@.skip(start as int),
            body == unsigned_part(s@),
            limit == 0x8000_0000_0000_0000,
            all_digits(body.take(i - start)),
            !over ==> acc == digits_value(body.take(i - start)) && acc <= limit,
            over ==> digits_value(body.take(i - start)) > limit,
        decreases n - i,
    {
        let c = chars[i];
        let ghost k = i - start;
        assert(body[k] == c);
        assert(body.take(k + 1).drop_last() == body.take(k));
        assert(body.take(k + 1).last() == c);
        if !('0' <= c && c <= '9') {
            assert(0 <= k < body.len() && !is_digit(body[k]));
            assert(!all_digits(body));
            return None;
        }
        assert(all_digits(body.take(k + 1))) by {
            assert forall|j: int| 0 <= j < k + 1 implies is_digit(#[trigger] body.take(k + 1)[j]) by {
                if j < k {
                    assert(body.take(k + 1)[j] == body.take(k)[j]);
                }
            }
        }
        let d: u128 = (c as u32 - 0x30) as u128;
        if !over {
            acc = acc * 10 + d;
            if acc > limit {
                over = true;
            }
        }
        i += 1;
    }
    assert(body.take(n - start) == body);
    if over {
        return None;
    }
    if negative {
        if acc == limit {
            Some(i64::MIN)
        } else {
            Some(-(acc as i64))
        }
    } else {
        if acc == limit {
            None
        } else {
            Some(acc as i64)
        }
    }
}

} // verus!
