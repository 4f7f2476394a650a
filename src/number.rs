//! Signed decimal integers, as program operands are written.
use vstd::prelude::*;

verus! {

/// Whether `c` is one of the ASCII digits `0` to `9`.
pub open spec fn is_digit(c: char) -> bool {
    '0' <= c <= '9'
}

/// The value of the ASCII digit `c`.
pub open spec fn digit_value(c: char) -> int {
    c as u32 - 48
}

/// The value of the digit string `s`, read in base ten (0 for the empty string).
pub open spec fn digits_value(s: Seq<char>) -> int
    decreases s.len(),
{
    if s.len() == 0 {
        0
    } else {
        digits_value(s.drop_last()) * 10 + digit_value(s.last())
    }
}

/// Whether every character of `s` is an ASCII digit.
pub open spec fn all_digits(s: Seq<char>) -> bool {
    forall|i: int| 0 <= i < s.len() ==> is_digit(#[trigger] s[i])
}

/// Whether `w` starts with a `+` or `-` sign.
pub open spec fn has_sign(w: Seq<char>) -> bool {
    w.len() > 0 && (w[0] == '-' || w[0] == '+')
}

/// `w` without its sign, if it has one.
pub open spec fn unsigned_part(w: Seq<char>) -> Seq<char> {
    if has_sign(w) {
        w.drop_first()
    } else {
        w
    }
}

/// The integer that `w` writes in decimal: an optional `+` or `-` sign
/// followed by one or more ASCII digits, and nothing else.
pub open spec fn decimal_of(w: Seq<char>) -> Option<int> {
    let digits = unsigned_part(w);
    if digits.len() > 0 && all_digits(digits) {
        Some(
            if has_sign(w) && w[0] == '-' {
                -digits_value(digits)
            } else {
                digits_value(digits)
            },
        )
    } else {
        None
    }
}

/// `w` as an operand: a decimal integer that fits in an `i32`.
pub open spec fn operand_of(w: Seq<char>) -> Option<i32> {
    match decimal_of(w) {
        Some(v) => if i32::MIN <= v <= i32::MAX {
            Some(v as i32)
        } else {
            None
        },
        None => None,
    }
}

proof fn lemma_digits_value_nonneg(s: Seq<char>)
    requires
        forall|i: int| 0 <= i < s.len() ==> is_digit(#[trigger] s[i]),
    ensures
        digits_value(s) >= 0,
    decreases s.len(),
{
    if s.len() > 0 {
        lemma_digits_value_nonneg(s.drop_last());
    }
}

/// One past the magnitude of `i32::MIN`: every larger magnitude is clamped to it.
const CLAMP: i64 = 2147483649;

/// Reads `t[from..to]` as an operand.
#[verifier::loop_isolation(false)]
pub fn parse_operand(t: &Vec<char>, from: usize, to: usize) -> (r: Option<i32>)
    requires
        from <= to <= t@.len(),
    ensures
        r == operand_of(t@.subrange(from as int, to as int)),
{
    let ghost w = t@.subrange(from as int, to as int);
    let signed = from < to && (t[from] == '-' || t[from] == '+');
    let negative = signed && t[from] == '-';
    let start: usize = if signed {
        from + 1
    } else {
        from
    };
    let ghost digits = t@.subrange(start as int, to as int);
    assert(from < to ==> w[0] == t@[from as int]);
    assert(signed == (w.len() > 0 && (w[0] == '-' || w[0] == '+')));
    assert(signed ==> digits =~= w.drop_first());
    assert(!signed ==> digits =~= w);
    if start == to {
        return None;
    }
    let mut acc: i64 = 0;
    let mut j: usize = start;
    while j < to
        invariant
            start <= j <= to <= t@.len(),
            digits == t@.subrange(start as int, to as int),
            0 <= acc <= CLAMP,
            forall|i: int| start <= i < j ==> is_digit(#[trigger] t@[i]),
            acc == if digits_value(t@.subrange(start as int, j as int)) < CLAMP {
                digits_value(t@.subrange(start as int, j as int))
            } else {
                CLAMP as int
            },
        decreases to - j,
    {
        let c = t[j];
        if !('0' <= c && c <= '9') {
            assert(digits[j - start] == t@[j as int]);
            assert(unsigned_part(w) == digits);
            return None;
        }
        let ghost prefix = t@.subrange(start as int, j as int);
        let ghost longer = t@.subrange(start as int, j + 1);
        assert(longer.drop_last() =~= prefix);
        assert forall|i: int| 0 <= i < prefix.len() implies is_digit(#[trigger] prefix[i]) by {
            assert(prefix[i] == t@[start + i]);
        }
        proof {
            lemma_digits_value_nonneg(prefix);
        }
        let d = (c as u32 - 48) as i64;
        assert(d == digit_value(c));
        let next = acc * 10 + d;
        acc = if next < CLAMP {
            next
        } else {
            CLAMP
        };
        j = j + 1;
    }
    assert(digits =~= t@.subrange(start as int, j as int));
    assert forall|i: int| 0 <= i < digits.len() implies is_digit(#[trigger] digits[i]) by {
        assert(digits[i] == t@[start + i]);
    }
    assert(unsigned_part(w) == digits);
    proof {
        lemma_digits_value_nonneg(digits);
    }
    if negative {
        if acc <= 2147483648 {
            Some((-acc) as i32)
        } else {
            None
        }
    } else {
        if acc <= 2147483647 {
            Some(acc as i32)
        } else {
            None
        }
    }
}

} // verus!
