//! Small verified helpers over strings and decimal digits used by the
//! wire protocol and the JSON emitters.
use vstd::prelude::*;

verus! {

/// Compares two string slices by their character sequences.
pub fn str_eq(a: &str, b: &str) -> (r: bool)
    ensures
        r == (a@ == b@),
{
    let sa: String = a.to_owned();
    let sb: String = b.to_owned();
    sa == sb
}

/// An ASCII decimal digit.
pub open spec fn is_digit_char(c: char) -> bool {
    48 <= c as u32 <= 57
}

/// The numeric value of a decimal digit character.
pub open spec fn digit_val(c: char) -> int {
    c as u32 - 48
}

/// The non-negative integer denoted by a sequence of decimal digits,
/// most significant first; leading zeros are permitted.
pub open spec fn digits_val(s: Seq<char>) -> int
    decreases s.len(),
{
    if s.len() == 0 {
        0
    } else {
        digits_val(s.drop_last()) * 10 + digit_val(s.last())
    }
}

pub proof fn lemma_digits_val_nonneg(s: Seq<char>)
    requires
        forall|i: int| 0 <= i < s.len() ==> is_digit_char(s[i]),
    ensures
        digits_val(s) >= 0,
    decreases s.len(),
{
    if s.len() > 0 {
        lemma_digits_val_nonneg(s.drop_last());
    }
}

/// Reading more digits never shrinks the value: the value of a prefix is
/// a lower bound for the value of the whole digit string.
pub proof fn lemma_digits_val_prefix(s: Seq<char>, i: int)
    requires
        0 <= i <= s.len(),
        forall|j: int| 0 <= j < s.len() ==> is_digit_char(s[j]),
    ensures
        digits_val(s.take(i)) <= digits_val(s),
    decreases s.len() - i,
{
    if i == s.len() {
        assert(s.take(i) =~= s);
    } else {
        assert(s.take(i + 1).drop_last() =~= s.take(i));
        assert(s.take(i + 1).last() == s[i]);
        assert forall|j: int| 0 <= j < s.take(i).len() implies is_digit_char(s.take(i)[j]) by {}
        lemma_digits_val_nonneg(s.take(i));
        lemma_digits_val_prefix(s, i + 1);
    }
}

/// Parses the decimal digit span `s[from..to]`, negated when `neg` holds,
/// as an `i32`. Returns nothing exactly when the denoted value does not
/// fit in an `i32`.
pub fn digits_to_i32(s: &str, from: usize, to: usize, neg: bool) -> (r: Option<i32>)
    requires
        from < to <= s@.len(),
        forall|j: int| from <= j < to ==> is_digit_char(s@[j]),
    ensures
        ({
            let v = digits_val(s@.subrange(from as int, to as int));
            let sv: int = if neg {
                -v
            } else {
                v
            };
            &&& (r is Some <==> i32::MIN <= sv <= i32::MAX)
            &&& (r matches Some(x) ==> x as int == sv)
        }),
{
    let ghost digits = s@.subrange(from as int, to as int);
    proof {
        assert forall|j: int| 0 <= j < digits.len() implies is_digit_char(digits[j]) by {}
    }
    let mut acc: u64 = 0;
    let mut i: usize = from;
    while i < to
        invariant
            from <= i <= to <= s@.len(),
            digits == s@.subrange(from as int, to as int),
            forall|j: int| from <= j < to ==> is_digit_char(s@[j]),
            forall|j: int| 0 <= j < digits.len() ==> is_digit_char(digits[j]),
            acc == digits_val(digits.take(i - from)),
            acc <= 2147483648,
        decreases to - i,
    {
        let c = s.get_char(i);
        let d: u64 = ((c as u32) - 48) as u64;
        proof {
            assert(digits[i - from] == s@[i as int]);
            assert(digits.take(i - from + 1).drop_last() =~= digits.take(i - from));
            assert(digits.take(i - from + 1).last() == digits[i - from]);
        }
        acc = acc * 10 + d;
        if acc > 2147483648 {
            proof {
                lemma_digits_val_prefix(digits, i - from + 1);
            }
            return None;
        }
        i = i + 1;
    }
    proof {
        assert(digits.take(to - from) =~= digits);
    }
    if neg {
        if acc == 2147483648 {
            Some(i32::MIN)
        } else {
            Some(-(acc as i32))
        }
    } else {
        if acc > 2147483647 {
            None
        } else {
            Some(acc as i32)
        }
    }
}

} // verus!
