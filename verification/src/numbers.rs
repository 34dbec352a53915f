//! Numbers that are read from text, and from the bytes of a file.

use vstd::prelude::*;

verus! {

/// The character is a decimal digit.
pub open spec fn is_digit(ch: char) -> bool {
    '0' <= ch && ch <= '9'
}

/// The text is made of digits alone, and has one.
pub open spec fn is_digits(text: Seq<char>) -> bool {
    &&& text.len() > 0
    &&& forall|i: int| 0 <= i < text.len() ==> is_digit(#[trigger] text[i])
}

/// The number that a text of digits stands for.
pub open spec fn digits_value(text: Seq<char>) -> int
    decreases text.len(),
{
    if text.len() == 0 {
        0
    } else {
        10 * digits_value(text.drop_last()) + (text.last() as int - '0' as int)
    }
}

/// What stands behind the sign.
pub open spec fn unsigned(text: Seq<char>) -> Seq<char> {
    if text.len() > 0 && (text[0] == '-' || text[0] == '+') {
        text.skip(1)
    } else {
        text
    }
}

/// The number that a text stands for: digits, with a sign before them or not.
pub open spec fn number_value(text: Seq<char>) -> int {
    if text.len() > 0 && text[0] == '-' {
        -digits_value(unsigned(text))
    } else {
        digits_value(unsigned(text))
    }
}

/// The number of 32 bits that a text stands for, if it stands for one.
pub open spec fn parsed_i32(text: Seq<char>) -> Option<i32> {
    if is_digits(unsigned(text)) && i32::MIN <= number_value(text) <= i32::MAX {
        Some(number_value(text) as i32)
    } else {
        None
    }
}

proof fn lemma_value_grows(text: Seq<char>, k: int)
    requires
        is_digits(text),
        0 <= k <= text.len(),
    ensures
        0 <= digits_value(text.take(k)) <= digits_value(text),
    decreases text.len(),
{
    if k == text.len() {
        assert(text.take(k) =~= text);
        if text.len() > 1 {
            assert(is_digits(text.drop_last()));
            lemma_value_grows(text.drop_last(), text.len() - 1);
            assert(text.drop_last().take(text.len() - 1) =~= text.drop_last());
        }
        assert(is_digit(text[text.len() - 1]));
        if text.len() == 1 {
            assert(text.drop_last() =~= Seq::empty());
        }
    } else {
        if text.len() == 1 {
            assert(text.take(0) =~= Seq::empty());
            assert(text.drop_last() =~= Seq::empty());
            assert(is_digit(text[0]));
        } else {
            assert(is_digits(text.drop_last()));
            lemma_value_grows(text.drop_last(), k);
            assert(text.drop_last().take(k) =~= text.take(k));
            assert(is_digit(text[text.len() - 1]));
        }
    }
}

fn digit_of(ch: char) -> (n: i64)
    requires
        is_digit(ch),
    ensures
        n == ch as int - '0' as int,
        0 <= n <= 9,
{
    ch as i64 - '0' as i64
}

/// Reads a number of 32 bits.
pub fn parse_i32(chars: &Vec<char>) -> (number: Option<i32>)
    ensures
        number == parsed_i32(chars@),
{
    let ghost body = unsigned(chars@);
    let negative: bool = chars.len() > 0 && chars[0] == '-';
    let signed: bool = chars.len() > 0 && (chars[0] == '-' || chars[0] == '+');
    let start: usize = if signed {
        1
    } else {
        0
    };
    if chars.len() == start {
        assert(body.len() == 0);
        return None;
    }
    let mut value: i64 = 0;
    let mut i: usize = start;
    while i < chars.len()
        invariant
            start <= i <= chars@.len(),
            start == 0 || start == 1,
            body.len() == chars@.len() - start,
            body.len() > 0,
            body == unsigned(chars@),
            forall|k: int| 0 <= k < body.len() ==> #[trigger] body[k] == chars@[k + start],
            forall|k: int| 0 <= k < i - start ==> is_digit(#[trigger] body[k]),
            value == digits_value(body.take(i - start)),
            0 <= value <= 3_000_000_000,
        decreases chars@.len() - i,
    {
        let ch = chars[i];
        assert(body[i - start] == ch);
        if !('0' <= ch && ch <= '9') {
            return None;
        }
        assert(body.take(i - start + 1).drop_last() =~= body.take(i - start));
        value = 10 * value + digit_of(ch);
        i += 1;
        if value > 3_000_000_000 {
            proof {
                if is_digits(body) {
                    lemma_value_grows(body, i - start);
                }
            }
            return None;
        }
    }
    assert(body.take(i - start) =~= body);
    assert(is_digits(body));
    let number: i64 = if negative {
        -value
    } else {
        value
    };
    if -2_147_483_648 <= number && number <= 2_147_483_647 {
        Some(number as i32)
    } else {
        None
    }
}

proof fn lemma_digits_read_back(n: nat)
    ensures
        is_digits(crate::strings::digits(n)),
        digits_value(crate::strings::digits(n)) == n,
    decreases n,
{
    let text = crate::strings::digits(n);
    if n >= 10 {
        lemma_digits_read_back(n / 10);
        assert(text.drop_last() =~= crate::strings::digits(n / 10));
        assert(text.last() == crate::strings::digit(n % 10));
        assert(digits_value(text) == 10 * (n / 10) + n % 10);
        assert forall|i: int| 0 <= i < text.len() implies is_digit(#[trigger] text[i]) by {
            if i < text.len() - 1 {
                assert(text[i] == crate::strings::digits(n / 10)[i]);
            }
        }
    } else {
        assert(text.drop_last() =~= Seq::empty());
        assert(text.last() == crate::strings::digit(n));
        assert(digits_value(text.drop_last()) == 0);
    }
}

/// A printed number reads back as itself.
pub proof fn law_printed_number_reads_back(n: i32)
    ensures
        parsed_i32(crate::strings::decimal(n as int)) == Some(n),
{
    let text = crate::strings::decimal(n as int);
    if n < 0 {
        lemma_digits_read_back((-n) as nat);
        assert(text.skip(1) =~= crate::strings::digits((-n) as nat));
    } else {
        lemma_digits_read_back(n as nat);
        assert(is_digit(text[0]));
        assert(unsigned(text) == text);
    }
}

/// The number of 16 bits at a position, with its highest byte first.
pub open spec fn short_at(bytes: Seq<u8>, at: int) -> int {
    256 * bytes[at] + bytes[at + 1]
}

/// The number of 32 bits at a position, with its highest byte first.
pub open spec fn long_at(bytes: Seq<u8>, at: int) -> int {
    65_536 * short_at(bytes, at) + short_at(bytes, at + 2)
}

/// Reads a number of 16 bits.
pub fn read_short(bytes: &Vec<u8>, at: usize) -> (n: u64)
    requires
        at + 2 <= bytes@.len(),
    ensures
        n == short_at(bytes@, at as int),
        n <= 0xffff,
{
    assert(at + 2 <= bytes.len());
    256 * bytes[at] as u64 + bytes[at + 1] as u64
}

/// Reads a number of 32 bits.
pub fn read_long(bytes: &Vec<u8>, at: usize) -> (n: u64)
    requires
        at + 4 <= bytes@.len(),
    ensures
        n == long_at(bytes@, at as int),
        n <= 0xffff_ffff,
{
    assert(at + 4 <= bytes.len());
    65_536 * read_short(bytes, at) + read_short(bytes, at + 2)
}

/// A number is read from digits alone, with a sign before them or not: another character anywhere, or no digit at all, makes
/// it no number.
pub proof fn law_numbers_are_made_of_digits(text: Seq<char>, i: int)
    ensures
        parsed_i32(text) is Some ==> text.len() > 0,
        parsed_i32(text) is Some && 0 < i < text.len() ==> '0' <= text[i] <= '9',
        parsed_i32(text) is Some ==> '0' <= text[0] <= '9' || text[0] == '+' || text[0] == '-',
        parsed_i32(text) is Some && text[0] == '-' ==> parsed_i32(text)->0 <= 0,
        parsed_i32(text) is Some && text[0] != '-' ==> parsed_i32(text)->0 >= 0,
{
    if parsed_i32(text) is Some {
        let body = unsigned(text);
        lemma_value_grows(body, 0);
        if text[0] == '-' || text[0] == '+' {
            if 0 < i < text.len() {
                assert(is_digit(body[i - 1]));
            }
        } else {
            assert(is_digit(body[0]));
            if 0 < i < text.len() {
                assert(is_digit(body[i]));
            }
        }
    }
}

/// Numbers in the bytes of a file have their highest byte first.
pub proof fn law_bytes_make_up_numbers(bytes: Seq<u8>, at: int)
    requires
        0 <= at,
        at + 4 <= bytes.len(),
    ensures
        short_at(bytes, at) / 256 == bytes[at] && short_at(bytes, at) % 256 == bytes[at + 1],
        long_at(bytes, at) / 0x100_0000 == bytes[at],
        long_at(bytes, at) / 0x1_0000 % 256 == bytes[at + 1],
        long_at(bytes, at) / 256 % 256 == bytes[at + 2],
        long_at(bytes, at) % 256 == bytes[at + 3],
        0 <= short_at(bytes, at) <= 0xffff,
        0 <= long_at(bytes, at) <= 0xffff_ffff,
{
}

} // verus!
