//! Decimal numerals: the number that a run of digits denotes, and reading it
//! into an `i64`.

use crate::chars::is_digit;
use vstd::prelude::*;
use vstd::string::StrSliceExecFns;

verus! {

/// The value of a decimal digit, and 0 for any other character.
pub open spec fn digit_value(c: char) -> nat {
    if is_digit(c) {
        (c as int - '0' as int) as nat
    } else {
        0
    }
}

/// The number that `digits` denotes in base ten, most significant digit
/// first. The empty sequence denotes 0.
pub open spec fn decimal_value(digits: Seq<char>) -> nat
    decreases digits.len(),
{
    if digits.len() == 0 {
        0
    } else {
        10 * decimal_value(digits.drop_last()) + digit_value(digits.last())
    }
}

/// Appending one character to a numeral multiplies its value by ten and adds
/// the character's digit value.
pub proof fn lemma_decimal_value_push(digits: Seq<char>, c: char)
    ensures
        decimal_value(digits.push(c)) == 10 * decimal_value(digits) + digit_value(c),
{
    assert(digits.push(c).drop_last() =~= digits);
}

/// A numeral is worth at least as much as any of its prefixes.
pub proof fn lemma_decimal_value_prefix(digits: Seq<char>, k: int)
    requires
        0 <= k <= digits.len(),
    ensures
        decimal_value(digits.take(k)) <= decimal_value(digits),
    decreases digits.len() - k,
{
    if k < digits.len() {
        lemma_decimal_value_prefix(digits, k + 1);
        assert(digits.take(k + 1) =~= digits.take(k).push(digits[k]));
        lemma_decimal_value_push(digits.take(k), digits[k]);
    } else {
        assert(digits.take(k) =~= digits);
    }
}

/// The value of the decimal digit `c`.
pub fn digit_of(c: char) -> (d: i64)
    requires
        is_digit(c),
    ensures
        d == digit_value(c),
{
    (c as u32 - '0' as u32) as i64
}

/// Reads the digits `text[from..to]` as a decimal number. The result is the
/// number they denote, or `None` when that number is above `i64::MAX`.
pub fn parse_decimal(text: &str, from: usize, to: usize) -> (r: Option<i64>)
    requires
        from <= to <= text@.len(),
        forall|k: int| from <= k < to ==> is_digit(#[trigger] text@[k]),
    ensures
        match r {
            Some(v) => v == decimal_value(text@.subrange(from as int, to as int)),
            None => decimal_value(text@.subrange(from as int, to as int)) > i64::MAX,
        },
{
    let ghost digits = text@.subrange(from as int, to as int);
    let mut acc: i64 = 0;
    let mut i: usize = from;
    proof {
        assert(digits.take(0) =~= Seq::<char>::empty());
    }
    while i < to
        invariant
            from <= i <= to <= text@.len(),
            digits == text@.subrange(from as int, to as int),
            forall|k: int| from <= k < to ==> is_digit(#[trigger] text@[k]),
            0 <= acc,
            acc == decimal_value(digits.take(i - from)),
        decreases to - i,
    {
        let d: i64 = digit_of(text.get_char(i));
        proof {
            assert(digits.take(i - from + 1) =~= digits.take(i - from).push(text@[i as int]));
            lemma_decimal_value_push(digits.take(i - from), text@[i as int]);
        }
        if acc > (i64::MAX - d) / 10 {
            proof {
                lemma_decimal_value_prefix(digits, i - from + 1);
            }
            return None;
        }
        acc = acc * 10 + d;
        i = i + 1;
    }
    proof {
        assert(digits.take(to - from) =~= digits);
    }
    Some(acc)
}

} // verus!
