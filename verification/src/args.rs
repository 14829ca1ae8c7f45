//! Hexadecimal numbers in command-line arguments.
//!
//! A number is an optional `+` followed by at least one hexadecimal digit,
//! in either case, and nothing else: no prefix, no sign but `+`, no space
//! and no underscore. Text is read as the bytes that encode it; every byte
//! that means something here is ASCII.

use vstd::prelude::*;

verus! {

/// Why an argument could not be read.
#[derive(Clone, Copy, Debug, PartialEq, Eq, Structural)]
pub enum ArgError {
    /// The device is not of the form `VID:PID`: it holds no colon.
    MissingColon,
    /// What stands before the first colon is no 16-bit hexadecimal number.
    Vid,
    /// What stands after the first colon is no 16-bit hexadecimal number.
    Pid,
    /// The address is no 32-bit hexadecimal number.
    Address,
    /// A vendor or product identifier does not have four digits.
    DigitCount,
}

/// `+` in ASCII.
pub const PLUS: u8 = 0x2B;

/// `:` in ASCII.
pub const COLON: u8 = 0x3A;

/// `0` in ASCII.
pub const ZERO: u8 = 0x30;

/// `x` in ASCII.
pub const SMALL_X: u8 = 0x78;

/// The value of a hexadecimal digit, and `None` for any other byte.
pub open spec fn digit_value(b: u8) -> Option<int> {
    if 0x30 <= b <= 0x39 {
        Some(b - 0x30)
    } else if 0x61 <= b <= 0x66 {
        Some(b - 0x61 + 10)
    } else if 0x41 <= b <= 0x46 {
        Some(b - 0x41 + 10)
    } else {
        None
    }
}

/// Whether every byte is a hexadecimal digit.
pub open spec fn all_digits(digits: Seq<u8>) -> bool {
    forall|i: int| 0 <= i < digits.len() ==> digit_value(#[trigger] digits[i]) is Some
}

/// The number that a run of hexadecimal digits spells, most significant
/// digit first.
pub open spec fn digits_value(digits: Seq<u8>) -> int
    decreases digits.len(),
{
    if digits.len() == 0 {
        0
    } else {
        16 * digits_value(digits.drop_last()) + digit_value(digits.last()).unwrap()
    }
}

/// The digits of a number: the text without a leading `+`.
pub open spec fn digits_of(text: Seq<u8>) -> Seq<u8> {
    if text.len() > 0 && text[0] == PLUS {
        text.skip(1)
    } else {
        text
    }
}

/// The number that `text` spells, where it spells one that is at most
/// `max`.
pub open spec fn hex_number(text: Seq<u8>, max: int) -> Option<int> {
    let digits = digits_of(text);
    if digits.len() > 0 && all_digits(digits) && digits_value(digits) <= max {
        Some(digits_value(digits))
    } else {
        None
    }
}

/// The offset of the first byte `b` in `text` at or after `from`, and the
/// length of `text` where there is none.
pub open spec fn find_byte(text: Seq<u8>, b: u8, from: int) -> int
    decreases text.len() - from,
{
    if from >= text.len() {
        text.len() as int
    } else if text[from] == b {
        from
    } else {
        find_byte(text, b, from + 1)
    }
}

/// The text without a leading `0x`.
pub open spec fn strip_0x(text: Seq<u8>) -> Seq<u8> {
    if text.len() >= 2 && text[0] == ZERO && text[1] == SMALL_X {
        text.skip(2)
    } else {
        text
    }
}

/// The digits of a number never spell less than a run of digits that they
/// start with.
pub proof fn lemma_digits_value_monotonic(digits: Seq<u8>, n: int)
    requires
        all_digits(digits),
        0 <= n <= digits.len(),
    ensures
        0 <= digits_value(digits.take(n)) <= digits_value(digits),
    decreases digits.len(),
{
    if n == digits.len() {
        assert(digits.take(n) == digits);
        if n > 0 {
            lemma_digits_value_monotonic(digits.drop_last(), n - 1);
            assert(digit_value(digits.last()) is Some);
        }
    } else {
        assert(digits.drop_last().take(n) == digits.take(n));
        assert(forall|i: int|
            0 <= i < digits.drop_last().len() ==> digits.drop_last()[i] == digits[i]);
        lemma_digits_value_monotonic(digits.drop_last(), n);
        assert(digit_value(digits.last()) is Some);
    }
}

/// The value of a hexadecimal digit.
fn digit(b: u8) -> (d: Option<u8>)
    ensures
        match d {
            Some(v) => digit_value(b) == Some(v as int),
            None => digit_value(b) is None,
        },
{
    if 0x30 <= b && b <= 0x39 {
        Some(b - 0x30)
    } else if 0x61 <= b && b <= 0x66 {
        Some(b - 0x61 + 10)
    } else if 0x41 <= b && b <= 0x46 {
        Some(b - 0x41 + 10)
    } else {
        None
    }
}

/// Reads the number that the bytes `from..to` of `text` spell, where they
/// spell one that is at most `max`.
pub(crate) fn number_in(text: &[u8], from: usize, to: usize, max: u32) -> (res: Option<u32>)
    requires
        from <= to <= text@.len(),
    ensures
        match res {
            Some(v) => hex_number(text@.subrange(from as int, to as int), max as int) == Some(
                v as int,
            ),
            None => hex_number(text@.subrange(from as int, to as int), max as int) is None,
        },
{
    let ghost whole = text@.subrange(from as int, to as int);
    let start = if from < to && text[from] == PLUS {
        from + 1
    } else {
        from
    };
    let ghost digits = text@.subrange(start as int, to as int);
    assert(digits == digits_of(whole));
    if start == to {
        return None;
    }
    let mut value: u64 = 0;
    let mut i: usize = start;
    while i < to
        invariant
            from <= start <= i <= to <= text@.len(),
            whole == text@.subrange(from as int, to as int),
            digits == text@.subrange(start as int, to as int),
            digits == digits_of(whole),
            digits.len() > 0,
            all_digits(digits.take(i - start)),
            value == digits_value(digits.take(i - start)),
            value <= max,
        decreases to - i,
    {
        let ghost seen = digits.take(i - start);
        let ghost next = digits.take(i - start + 1);
        proof {
            assert(next.drop_last() == seen);
            assert(next.last() == text@[i as int]);
        }
        match digit(text[i]) {
            None => {
                assert(!all_digits(digits)) by {
                    assert(digits[i - start] == text@[i as int]);
                }
                return None;
            },
            Some(d) => {
                value = 16 * value + d as u64;
                assert(all_digits(next)) by {
                    assert forall|k: int| 0 <= k < next.len() implies digit_value(
                        #[trigger] next[k],
                    ) is Some by {
                        if k < seen.len() {
                            assert(next[k] == seen[k]);
                        }
                    }
                }
                if value > max as u64 {
                    proof {
                        if all_digits(digits) {
                            lemma_digits_value_monotonic(digits, i - start + 1);
                        }
                    }
                    return None;
                }
            },
        }
        i += 1;
    }
    proof {
        assert(digits.take(to - start) == digits);
    }
    Some(value as u32)
}

/// Finds the first byte `b` of `text`: its offset, or the length of `text`
/// where there is none.
pub(crate) fn find(text: &[u8], b: u8) -> (at: usize)
    ensures
        at == find_byte(text@, b, 0),
        at <= text@.len(),
{
    let mut i: usize = 0;
    while i < text.len()
        invariant
            i <= text@.len(),
            find_byte(text@, b, 0) == find_byte(text@, b, i as int),
        decreases text.len() - i,
    {
        if text[i] == b {
            return i;
        }
        i += 1;
    }
    i
}

/// Skips a leading `0x` in the bytes `from..to` of `text`: the offset at
/// which the rest starts.
pub(crate) fn skip_0x(text: &[u8], from: usize, to: usize) -> (start: usize)
    requires
        from <= to <= text@.len(),
    ensures
        from <= start <= to,
        text@.subrange(start as int, to as int) == strip_0x(text@.subrange(from as int, to as int)),
{
    if to - from >= 2 && text[from] == ZERO && text[from + 1] == SMALL_X {
        from + 2
    } else {
        from
    }
}

} // verus!
