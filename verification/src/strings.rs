//! Text as sequences of characters.

use vstd::prelude::*;

verus! {

/// `String::push` appends one character.
pub assume_specification[ String::push ](string: &mut String, ch: char)
    ensures
        final(string)@ == old(string)@.push(ch),
;

/// The characters of a text.
pub fn to_chars(text: &str) -> (chars: Vec<char>)
    ensures
        chars@ == text@,
{
    let mut chars: Vec<char> = Vec::new();
    for ch in it: text.chars()
        invariant
            chars@ == text@.take(it.index()),
            it.seq() == text@,
    {
        chars.push(ch);
        assert(text@.take(it.index() + 1) == text@.take(it.index()).push(ch));
    }
    assert(text@.take(text@.len() as int) == text@);
    chars
}

/// The text of the characters from one position up to another.
pub fn slice_to_string(chars: &Vec<char>, from: usize, to: usize) -> (text: String)
    requires
        from <= to <= chars@.len(),
    ensures
        text@ == chars@.subrange(from as int, to as int),
{
    let mut text = String::new();
    let mut i: usize = from;
    while i < to
        invariant
            from <= i <= to <= chars@.len(),
            text@ == chars@.subrange(from as int, i as int),
        decreases to - i,
    {
        text.push(chars[i]);
        i += 1;
        assert(chars@.subrange(from as int, i as int) == chars@.subrange(
            from as int,
            i - 1,
        ).push(chars@[i - 1]));
    }
    text
}

/// Whether two texts have the same characters.
pub fn same_text(a: &str, b: &str) -> (same: bool)
    ensures
        same == (a@ == b@),
{
    let a = to_chars(a);
    let b = to_chars(b);
    same_chars(&a, &b)
}

/// Whether two lists of characters are the same.
pub fn same_chars(a: &Vec<char>, b: &Vec<char>) -> (same: bool)
    ensures
        same == (a@ == b@),
{
    if a.len() != b.len() {
        return false;
    }
    let mut i: usize = 0;
    while i < a.len()
        invariant
            i <= a@.len() == b@.len(),
            a@.take(i as int) == b@.take(i as int),
        decreases a@.len() - i,
    {
        if a[i] != b[i] {
            assert(a@[i as int] != b@[i as int]);
            return false;
        }
        i += 1;
        assert(a@.take(i as int) == a@.take(i - 1).push(a@[i - 1]));
        assert(b@.take(i as int) == b@.take(i - 1).push(b@[i - 1]));
    }
    assert(a@.take(i as int) == a@);
    assert(b@.take(i as int) == b@);
    true
}

/// The text begins with `prefix`.
pub open spec fn has_prefix(text: Seq<char>, prefix: Seq<char>) -> bool {
    prefix.len() <= text.len() && text.take(prefix.len() as int) == prefix
}

/// The text ends with `suffix`.
pub open spec fn has_suffix(text: Seq<char>, suffix: Seq<char>) -> bool {
    suffix.len() <= text.len() && text.skip(text.len() - suffix.len()) == suffix
}

/// The text holds `part` at position `at`.
pub open spec fn holds_at(text: Seq<char>, part: Seq<char>, at: int) -> bool {
    0 <= at && at + part.len() <= text.len() && text.subrange(at, at + part.len()) == part
}

/// The text holds `part` somewhere.
pub open spec fn holds(text: Seq<char>, part: Seq<char>) -> bool {
    exists|at: int| holds_at(text, part, at)
}

/// Whether the characters at a position spell `part`.
pub fn chars_at(text: &Vec<char>, part: &Vec<char>, at: usize) -> (found: bool)
    requires
        at <= text@.len(),
    ensures
        found == holds_at(text@, part@, at as int),
{
    let total: usize = text.len();
    if part.len() > total - at {
        return false;
    }
    let mut i: usize = 0;
    while i < part.len()
        invariant
            i <= part@.len(),
            at + part@.len() <= text@.len() == total,
            text@.subrange(at as int, at + i) == part@.take(i as int),
        decreases part@.len() - i,
    {
        if text[at + i] != part[i] {
            assert(text@.subrange(at as int, at + part@.len())[i as int] != part@[i as int]);
            return false;
        }
        i += 1;
        assert(text@.subrange(at as int, at + i) == text@.subrange(at as int, at + i - 1).push(
            text@[at + i - 1],
        ));
        assert(part@.take(i as int) == part@.take(i - 1).push(part@[i - 1]));
    }
    assert(part@.take(i as int) == part@);
    true
}

/// Whether the text begins with `prefix`.
pub fn begins_with(text: &str, prefix: &str) -> (found: bool)
    ensures
        found == has_prefix(text@, prefix@),
{
    let text = to_chars(text);
    let prefix = to_chars(prefix);
    assert(prefix@.len() <= text@.len() ==> text@.subrange(0, prefix@.len() as int) == text@.take(
        prefix@.len() as int,
    ));
    chars_at(&text, &prefix, 0)
}

/// Whether the text ends with `suffix`.
pub fn ends_with(text: &str, suffix: &str) -> (found: bool)
    ensures
        found == has_suffix(text@, suffix@),
{
    let text = to_chars(text);
    let suffix = to_chars(suffix);
    if suffix.len() > text.len() {
        return false;
    }
    assert(text@.subrange(text@.len() - suffix@.len(), text@.len() as int) == text@.skip(
        text@.len() - suffix@.len(),
    ));
    chars_at(&text, &suffix, text.len() - suffix.len())
}

/// Whether the text holds `part` somewhere.
pub fn contains_text(text: &str, part: &str) -> (found: bool)
    ensures
        found == holds(text@, part@),
{
    let chars = to_chars(text);
    let wanted = to_chars(part);
    let mut at: usize = 0;
    loop
        invariant
            chars@ == text@,
            wanted@ == part@,
            at <= chars@.len(),
            forall|k: int| 0 <= k < at ==> !holds_at(text@, part@, k),
        decreases chars@.len() - at,
    {
        if chars_at(&chars, &wanted, at) {
            return true;
        }
        if at == chars.len() {
            return false;
        }
        at += 1;
    }
}

/// The decimal digit of a number below ten.
pub open spec fn digit(n: nat) -> char {
    (('0' as u32) + n) as char
}

/// The decimal digits of a number, without leading zeros.
pub open spec fn digits(n: nat) -> Seq<char>
    decreases n,
{
    if n < 10 {
        seq![digit(n)]
    } else {
        digits(n / 10).push(digit(n % 10))
    }
}

/// A number as it is printed.
pub open spec fn decimal(n: int) -> Seq<char> {
    if n < 0 {
        seq!['-'] + digits((-n) as nat)
    } else {
        digits(n as nat)
    }
}

fn digit_char(n: u64) -> (ch: char)
    requires
        n < 10,
    ensures
        ch == digit(n as nat),
{
    match n {
        0 => '0',
        1 => '1',
        2 => '2',
        3 => '3',
        4 => '4',
        5 => '5',
        6 => '6',
        7 => '7',
        8 => '8',
        _ => '9',
    }
}

/// Appends a number as it is printed.
pub fn push_u64(text: &mut String, n: u64)
    ensures
        final(text)@ == old(text)@ + digits(n as nat),
    decreases n,
{
    if n >= 10 {
        push_u64(text, n / 10);
    }
    text.push(digit_char(n % 10));
    proof {
        assert(final(text)@ =~= old(text)@ + digits(n as nat));
    }
}

/// Appends a number as it is printed.
pub fn push_i32(text: &mut String, n: i32)
    ensures
        final(text)@ == old(text)@ + decimal(n as int),
{
    let wide: i64 = n as i64;
    if wide < 0 {
        text.push('-');
        push_u64(text, (-wide) as u64);
        assert(final(text)@ =~= old(text)@ + decimal(n as int));
    } else {
        push_u64(text, wide as u64);
    }
}

/// The characters of a printed number are digits, after a sign where there is one.
pub open spec fn is_number_char(ch: char) -> bool {
    ch == '-' || ('0' <= ch && ch <= '9')
}

proof fn lemma_digits(n: nat)
    ensures
        digits(n).len() > 0,
        forall|i: int| 0 <= i < digits(n).len() ==> '0' <= #[trigger] digits(n)[i] <= '9',
    decreases n,
{
    if n >= 10 {
        lemma_digits(n / 10);
    }
}

/// Different numbers have different digits.
proof fn lemma_digits_injective(a: nat, b: nat)
    requires
        digits(a) == digits(b),
    ensures
        a == b,
    decreases a,
{
    lemma_digits(a);
    lemma_digits(b);
    let (da, db) = (digits(a), digits(b));
    assert(da.last() == db.last());
    if a >= 10 {
        lemma_digits(a / 10);
        assert(da.drop_last() == digits(a / 10));
    }
    if b >= 10 {
        lemma_digits(b / 10);
        assert(db.drop_last() == digits(b / 10));
    }
    if a >= 10 && b >= 10 {
        assert(digits(a / 10) == digits(b / 10));
        lemma_digits_injective(a / 10, b / 10);
        assert(digit(a % 10) == digit(b % 10));
    } else {
        assert(da.len() == db.len());
    }
}

/// A printed number has characters, and all of them are digits or its sign.
pub proof fn lemma_decimal_chars(n: int)
    ensures
        decimal(n).len() > 0,
        forall|i: int| 0 <= i < decimal(n).len() ==> is_number_char(#[trigger] decimal(n)[i]),
{
    lemma_digits(if n < 0 {
        (-n) as nat
    } else {
        n as nat
    });
}

/// Different numbers are printed differently.
pub proof fn law_decimal_is_injective(a: int, b: int)
    requires
        decimal(a) == decimal(b),
    ensures
        a == b,
{
    lemma_digits(if a < 0 {
        (-a) as nat
    } else {
        a as nat
    });
    lemma_digits(if b < 0 {
        (-b) as nat
    } else {
        b as nat
    });
    let (da, db) = (decimal(a), decimal(b));
    assert(da[0] == db[0]);
    if a < 0 && b < 0 {
        assert(da.skip(1) == digits((-a) as nat));
        assert(db.skip(1) == digits((-b) as nat));
        lemma_digits_injective((-a) as nat, (-b) as nat);
    } else if a >= 0 && b >= 0 {
        lemma_digits_injective(a as nat, b as nat);
    }
}

/// Two texts of the form `number`, separator, `rest` are the same only if the numbers and the
/// rests are.
pub proof fn lemma_number_then_separator(
    a: int,
    b: int,
    separator: char,
    rest_a: Seq<char>,
    rest_b: Seq<char>,
)
    requires
        !is_number_char(separator),
        decimal(a) + seq![separator] + rest_a == decimal(b) + seq![separator] + rest_b,
    ensures
        a == b,
        rest_a == rest_b,
{
    lemma_decimal_chars(a);
    lemma_decimal_chars(b);
    let (da, db) = (decimal(a), decimal(b));
    let whole_a = da + seq![separator] + rest_a;
    let whole_b = db + seq![separator] + rest_b;
    assert(whole_a[da.len() as int] == separator);
    assert(whole_b[db.len() as int] == separator);
    if da.len() < db.len() {
        assert(whole_b[da.len() as int] == db[da.len() as int]);
    }
    if db.len() < da.len() {
        assert(whole_a[db.len() as int] == da[db.len() as int]);
    }
    assert(whole_a.take(da.len() as int) == da);
    assert(whole_b.take(db.len() as int) == db);
    law_decimal_is_injective(a, b);
    assert(whole_a.skip((da.len() + 1) as int) == rest_a);
    assert(whole_b.skip((db.len() + 1) as int) == rest_b);
}

/// The characters that count as white space.
pub open spec fn is_space(ch: char) -> bool {
    ||| '\u{9}' <= ch <= '\u{d}'
    ||| ch == '\u{20}'
    ||| ch == '\u{85}'
    ||| ch == '\u{a0}'
    ||| ch == '\u{1680}'
    ||| '\u{2000}' <= ch <= '\u{200a}'
    ||| ch == '\u{2028}'
    ||| ch == '\u{2029}'
    ||| ch == '\u{202f}'
    ||| ch == '\u{205f}'
    ||| ch == '\u{3000}'
}

/// Whether a character counts as white space.
pub fn is_whitespace(ch: char) -> (space: bool)
    ensures
        space == is_space(ch),
{
    ('\u{9}' <= ch && ch <= '\u{d}') || ch == '\u{20}' || ch == '\u{85}' || ch == '\u{a0}' || ch
        == '\u{1680}' || ('\u{2000}' <= ch && ch <= '\u{200a}') || ch == '\u{2028}' || ch
        == '\u{2029}' || ch == '\u{202f}' || ch == '\u{205f}' || ch == '\u{3000}'
}

/// The text between separators.
pub open spec fn segments(text: Seq<char>, separator: char) -> Seq<Seq<char>>
    decreases text.len(),
{
    if text.len() == 0 {
        seq![Seq::empty()]
    } else {
        let before = segments(text.drop_last(), separator);
        if text.last() == separator {
            before.push(Seq::empty())
        } else {
            before.drop_last().push(before.last().push(text.last()))
        }
    }
}

/// There is always at least one segment.
pub proof fn lemma_segments_not_empty(text: Seq<char>, separator: char)
    ensures
        segments(text, separator).len() > 0,
    decreases text.len(),
{
    if text.len() > 0 {
        lemma_segments_not_empty(text.drop_last(), separator);
    }
}

/// The text without white space at its beginning.
pub open spec fn trimmed_start(text: Seq<char>) -> Seq<char>
    decreases text.len(),
{
    if text.len() > 0 && is_space(text.first()) {
        trimmed_start(text.drop_first())
    } else {
        text
    }
}

/// The text without white space at its end.
pub open spec fn trimmed_end(text: Seq<char>) -> Seq<char>
    decreases text.len(),
{
    if text.len() > 0 && is_space(text.last()) {
        trimmed_end(text.drop_last())
    } else {
        text
    }
}

/// The text without white space around it.
pub open spec fn trimmed(text: Seq<char>) -> Seq<char> {
    trimmed_end(trimmed_start(text))
}

/// The trimmed texts that are not empty.
pub open spec fn filled(texts: Seq<Seq<char>>) -> Seq<Seq<char>>
    decreases texts.len(),
{
    if texts.len() == 0 {
        Seq::empty()
    } else {
        let before = filled(texts.drop_last());
        if trimmed(texts.last()).len() == 0 {
            before
        } else {
            before.push(trimmed(texts.last()))
        }
    }
}

/// The trimmed parts of a text between separators, without the empty ones.
pub open spec fn filled_parts(text: Seq<char>, separator: char) -> Seq<Seq<char>> {
    filled(segments(text, separator))
}

/// None of the trimmed texts is empty.
pub proof fn lemma_filled(texts: Seq<Seq<char>>, i: int)
    requires
        0 <= i < filled(texts).len(),
    ensures
        filled(texts)[i].len() > 0,
    decreases texts.len(),
{
    if texts.len() > 0 && i < filled(texts.drop_last()).len() {
        lemma_filled(texts.drop_last(), i);
    }
}

/// All of the text is white space.
pub open spec fn is_blank(text: Seq<char>) -> bool {
    forall|i: int| 0 <= i < text.len() ==> is_space(#[trigger] text[i])
}

/// The filled texts of two lists stand behind each other.
pub proof fn lemma_filled_concat(a: Seq<Seq<char>>, b: Seq<Seq<char>>)
    ensures
        filled(a + b) == filled(a) + filled(b),
    decreases b.len(),
{
    if b.len() == 0 {
        assert(a + b =~= a);
        assert(filled(a) + filled(b) =~= filled(a));
    } else {
        lemma_filled_concat(a, b.drop_last());
        assert((a + b).drop_last() =~= a + b.drop_last());
        assert((a + b).last() == b.last());
        assert(filled(a + b) =~= filled(a) + filled(b));
    }
}

proof fn lemma_trimmed_start_blank(blank: Seq<char>, text: Seq<char>)
    requires
        is_blank(blank),
    ensures
        trimmed_start(blank + text) == trimmed_start(text),
        trimmed_start(blank).len() == 0,
    decreases blank.len(),
{
    if blank.len() == 0 {
        assert(blank + text =~= text);
    } else {
        assert(is_space(blank[0]));
        lemma_trimmed_start_blank(blank.drop_first(), text);
        assert((blank + text).drop_first() =~= blank.drop_first() + text);
    }
}

proof fn lemma_trimmed_end_blank(text: Seq<char>, blank: Seq<char>)
    requires
        is_blank(blank),
    ensures
        trimmed_end(text + blank) == trimmed_end(text),
    decreases blank.len(),
{
    if blank.len() == 0 {
        assert(text + blank =~= text);
    } else {
        assert(is_space(blank[blank.len() - 1]));
        lemma_trimmed_end_blank(text, blank.drop_last());
        assert((text + blank).drop_last() =~= text + blank.drop_last());
    }
}

proof fn lemma_trimmed_start_append(text: Seq<char>, tail: Seq<char>)
    ensures
        trimmed_start(text).len() > 0 ==> trimmed_start(text + tail) == trimmed_start(text) + tail,
        trimmed_start(text).len() == 0 ==> trimmed_start(text + tail) == trimmed_start(tail),
    decreases text.len(),
{
    if text.len() == 0 {
        assert(text + tail =~= tail);
    } else if is_space(text.first()) {
        lemma_trimmed_start_append(text.drop_first(), tail);
        assert((text + tail).drop_first() =~= text.drop_first() + tail);
    }
}

/// White space around a text does not count.
pub proof fn lemma_trimmed_padded(before: Seq<char>, text: Seq<char>, after: Seq<char>)
    requires
        is_blank(before),
        is_blank(after),
    ensures
        trimmed(before + text + after) == trimmed(text),
{
    assert(before + text + after =~= before + (text + after));
    lemma_trimmed_start_blank(before, text + after);
    lemma_trimmed_start_append(text, after);
    if trimmed_start(text).len() > 0 {
        lemma_trimmed_end_blank(trimmed_start(text), after);
    } else {
        lemma_trimmed_start_blank(after, Seq::empty());
        assert(trimmed_start(after) =~= trimmed_start(text));
    }
}

/// Nothing is left of white space.
pub proof fn lemma_trimmed_blank(blank: Seq<char>)
    requires
        is_blank(blank),
    ensures
        trimmed(blank).len() == 0,
{
    lemma_trimmed_start_blank(blank, Seq::empty());
}

/// The text without white space around it.
pub fn trim(chars: &Vec<char>) -> (out: Vec<char>)
    ensures
        out@ == trimmed(chars@),
{
    let mut from: usize = 0;
    assert(chars@.skip(0) =~= chars@);
    while from < chars.len() && is_whitespace(chars[from])
        invariant
            from <= chars@.len(),
            trimmed_start(chars@) == trimmed_start(chars@.skip(from as int)),
        decreases chars@.len() - from,
    {
        assert(chars@.skip(from as int).drop_first() == chars@.skip(from + 1));
        from += 1;
    }
    let ghost start = chars@.skip(from as int);
    assert(trimmed_start(chars@) == start);
    let mut to: usize = chars.len();
    assert(chars@.subrange(from as int, to as int) =~= start);
    while to > from && is_whitespace(chars[to - 1])
        invariant
            from <= to <= chars@.len(),
            trimmed_end(start) == trimmed_end(chars@.subrange(from as int, to as int)),
        decreases to - from,
    {
        assert(chars@.subrange(from as int, to as int).drop_last() == chars@.subrange(
            from as int,
            to - 1,
        ));
        to -= 1;
    }
    let mut out: Vec<char> = Vec::new();
    let mut i: usize = from;
    while i < to
        invariant
            from <= i <= to <= chars@.len(),
            out@ == chars@.subrange(from as int, i as int),
        decreases to - i,
    {
        out.push(chars[i]);
        i += 1;
        assert(chars@.subrange(from as int, i as int) == chars@.subrange(
            from as int,
            i - 1,
        ).push(chars@[i - 1]));
    }
    out
}

/// The characters of a list of texts.
pub open spec fn char_lists(lists: Seq<Vec<char>>) -> Seq<Seq<char>> {
    Seq::new(lists.len(), |i: int| lists[i]@)
}

/// Splits a text at a separator.
pub fn split_chars(text: &str, separator: char) -> (parts: Vec<Vec<char>>)
    ensures
        char_lists(parts@) == segments(text@, separator),
{
    let chars = to_chars(text);
    let mut parts: Vec<Vec<char>> = Vec::new();
    let mut current: Vec<char> = Vec::new();
    let mut i: usize = 0;
    assert(char_lists(parts@) =~= segments(chars@.take(0), separator).drop_last());
    assert(current@ =~= segments(chars@.take(0), separator).last());
    while i < chars.len()
        invariant
            i <= chars@.len(),
            segments(chars@.take(i as int), separator).len() > 0,
            char_lists(parts@) == segments(chars@.take(i as int), separator).drop_last(),
            current@ == segments(chars@.take(i as int), separator).last(),
        decreases chars@.len() - i,
    {
        let ghost before = segments(chars@.take(i as int), separator);
        let ghost now = segments(chars@.take(i + 1), separator);
        assert(chars@.take(i + 1).drop_last() == chars@.take(i as int));
        let ch = chars[i];
        if ch == separator {
            let ghost earlier = parts@;
            parts.push(current);
            assert(char_lists(parts@) =~= char_lists(earlier).push(current@));
            assert(now.drop_last() =~= before);
            assert(before =~= before.drop_last().push(before.last()));
            current = Vec::new();
        } else {
            assert(now.drop_last() =~= before.drop_last());
            current.push(ch);
        }
        i += 1;
    }
    assert(chars@.take(i as int) =~= chars@);
    let ghost earlier = parts@;
    let ghost whole = segments(chars@, separator);
    parts.push(current);
    assert(char_lists(parts@) =~= char_lists(earlier).push(whole.last()));
    assert(whole =~= whole.drop_last().push(whole.last()));
    parts
}

/// Splits a text at a separator, trims the parts, and drops the empty ones.
pub fn split_filled(text: &str, separator: char) -> (parts: Vec<Vec<char>>)
    ensures
        char_lists(parts@) == filled_parts(text@, separator),
{
    let segments_of_text = split_chars(text, separator);
    let ghost texts = segments(text@, separator);
    let mut parts: Vec<Vec<char>> = Vec::new();
    let mut i: usize = 0;
    assert(char_lists(parts@) =~= filled(texts.take(0)));
    while i < segments_of_text.len()
        invariant
            i <= segments_of_text@.len() == texts.len(),
            char_lists(segments_of_text@) == texts,
            char_lists(parts@) == filled(texts.take(i as int)),
        decreases segments_of_text@.len() - i,
    {
        assert(texts.take(i + 1).drop_last() == texts.take(i as int));
        assert(texts[i as int] == segments_of_text@[i as int]@);
        let part = trim(&segments_of_text[i]);
        let ghost earlier = parts@;
        if part.len() > 0 {
            parts.push(part);
            assert(char_lists(parts@) =~= char_lists(earlier).push(part@));
        }
        i += 1;
    }
    assert(texts.take(i as int) =~= texts);
    parts
}

/// An upper case letter of ASCII in lower case.
pub open spec fn lower(ch: char) -> char {
    if 'A' <= ch && ch <= 'Z' {
        (ch as u32 + 32) as char
    } else {
        ch
    }
}

/// The text with all upper case letters of ASCII in lower case.
pub open spec fn lowered(text: Seq<char>) -> Seq<char> {
    Seq::new(text.len(), |i: int| lower(text[i]))
}

proof fn lemma_lowered_start(text: Seq<char>)
    ensures
        lowered(trimmed_start(text)) == trimmed_start(lowered(text)),
    decreases text.len(),
{
    if text.len() > 0 {
        assert(lowered(text).first() == lower(text.first()));
        assert(is_space(lower(text.first())) == is_space(text.first()));
        if is_space(text.first()) {
            lemma_lowered_start(text.drop_first());
            assert(lowered(text).drop_first() =~= lowered(text.drop_first()));
        }
    }
}

proof fn lemma_lowered_end(text: Seq<char>)
    ensures
        lowered(trimmed_end(text)) == trimmed_end(lowered(text)),
    decreases text.len(),
{
    if text.len() > 0 {
        assert(lowered(text).last() == lower(text.last()));
        assert(is_space(lower(text.last())) == is_space(text.last()));
        if is_space(text.last()) {
            lemma_lowered_end(text.drop_last());
            assert(lowered(text).drop_last() =~= lowered(text.drop_last()));
        }
    }
}

/// It does not matter whether a text is trimmed before or after its letters are changed.
pub proof fn lemma_lowered_trimmed(text: Seq<char>)
    ensures
        lowered(trimmed(text)) == trimmed(lowered(text)),
{
    lemma_lowered_start(text);
    lemma_lowered_end(trimmed_start(text));
}

/// The character in lower case, if it is an upper case letter of ASCII.
pub fn lower_char(ch: char) -> (out: char)
    ensures
        out == lower(ch),
{
    match ch {
        'A' => 'a',
        'B' => 'b',
        'C' => 'c',
        'D' => 'd',
        'E' => 'e',
        'F' => 'f',
        'G' => 'g',
        'H' => 'h',
        'I' => 'i',
        'J' => 'j',
        'K' => 'k',
        'L' => 'l',
        'M' => 'm',
        'N' => 'n',
        'O' => 'o',
        'P' => 'p',
        'Q' => 'q',
        'R' => 'r',
        'S' => 's',
        'T' => 't',
        'U' => 'u',
        'V' => 'v',
        'W' => 'w',
        'X' => 'x',
        'Y' => 'y',
        'Z' => 'z',
        other => other,
    }
}

/// The text with all upper case letters of ASCII in lower case.
pub fn lower_chars(chars: &Vec<char>) -> (out: Vec<char>)
    ensures
        out@ == lowered(chars@),
{
    let mut out: Vec<char> = Vec::new();
    let mut i: usize = 0;
    while i < chars.len()
        invariant
            i <= chars@.len(),
            out@.len() == i,
            forall|k: int| 0 <= k < i ==> #[trigger] out@[k] == lower(chars@[k]),
        decreases chars@.len() - i,
    {
        out.push(lower_char(chars[i]));
        i += 1;
    }
    assert(out@ =~= lowered(chars@));
    out
}

/// The text of a list of characters.
pub fn from_chars(chars: &Vec<char>) -> (text: String)
    ensures
        text@ == chars@,
{
    assert(chars@.subrange(0, chars@.len() as int) =~= chars@);
    slice_to_string(chars, 0, chars.len())
}

/// Appends a number as it is printed.
pub fn push_u128(text: &mut String, n: u128)
    ensures
        final(text)@ == old(text)@ + digits(n as nat),
    decreases n,
{
    if n >= 10 {
        push_u128(text, n / 10);
    }
    text.push(digit_char((n % 10) as u64));
    proof {
        assert(final(text)@ =~= old(text)@ + digits(n as nat));
    }
}

/// The texts with the separator between them.
pub open spec fn joined(texts: Seq<Seq<char>>, separator: char) -> Seq<char>
    decreases texts.len(),
{
    if texts.len() == 0 {
        Seq::empty()
    } else if texts.len() == 1 {
        texts[0]
    } else {
        joined(texts.drop_last(), separator).push(separator) + texts.last()
    }
}

/// A text that is split at a separator is whole again once the parts are joined by it, and no part holds
/// the separator.
pub proof fn law_split_text_can_be_joined(text: Seq<char>, separator: char)
    ensures
        joined(segments(text, separator), separator) == text,
        forall|i: int, j: int|
            0 <= i < segments(text, separator).len() && 0 <= j < segments(
                text,
                separator,
            )[i].len() ==> #[trigger] segments(text, separator)[i][j] != separator,
    decreases text.len(),
{
    let parts = segments(text, separator);
    lemma_segments_not_empty(text, separator);
    if text.len() == 0 {
        assert(joined(parts, separator) =~= text);
    } else {
        let head = text.drop_last();
        let before = segments(head, separator);
        lemma_segments_not_empty(head, separator);
        law_split_text_can_be_joined(head, separator);
        assert(text =~= head.push(text.last()));
        if text.last() == separator {
            assert(parts.drop_last() =~= before);
            assert(joined(parts, separator) =~= head.push(separator) + Seq::empty());
            assert(joined(parts, separator) =~= text);
            assert forall|i: int, j: int| 0 <= i < parts.len() && 0 <= j < parts[i].len() implies
                #[trigger] parts[i][j] != separator by {
                assert(before[i][j] != separator);
            }
        } else {
            let last = before.last().push(text.last());
            assert(parts.drop_last() =~= before.drop_last());
            if before.len() == 1 {
                assert(parts =~= seq![last]);
                assert(joined(parts, separator) =~= text);
            } else {
                assert(joined(parts, separator) =~= joined(before.drop_last(), separator).push(
                    separator,
                ) + last);
                assert(joined(parts, separator) =~= text);
            }
            assert forall|i: int, j: int| 0 <= i < parts.len() && 0 <= j < parts[i].len() implies
                #[trigger] parts[i][j] != separator by {
                if i < before.len() - 1 {
                    assert(before[i][j] != separator);
                } else if j < before.last().len() {
                    assert(before[before.len() - 1][j] != separator);
                }
            }
        }
    }
}

/// What is left of a trimmed text stands in it between white space alone, and neither begins nor ends with
/// white space.
pub proof fn law_trimming_takes_white_space_alone(text: Seq<char>) -> (cut: (Seq<char>, Seq<char>))
    ensures
        text == cut.0 + trimmed(text) + cut.1,
        is_blank(cut.0),
        is_blank(cut.1),
        trimmed(text).len() > 0 ==> !is_space(trimmed(text).first()) && !is_space(
            trimmed(text).last(),
        ),
{
    let before = lemma_start_cut(text);
    let after = lemma_end_cut(trimmed_start(text));
    assert(text =~= before + trimmed(text) + after);
    if trimmed(text).len() > 0 {
        assert(trimmed(text).first() == trimmed_start(text).first());
    }
    (before, after)
}

proof fn lemma_start_cut(text: Seq<char>) -> (cut: Seq<char>)
    ensures
        text == cut + trimmed_start(text),
        is_blank(cut),
        trimmed_start(text).len() > 0 ==> !is_space(trimmed_start(text).first()),
    decreases text.len(),
{
    if text.len() > 0 && is_space(text.first()) {
        let rest = lemma_start_cut(text.drop_first());
        let cut = seq![text.first()] + rest;
        assert(text =~= seq![text.first()] + text.drop_first());
        assert(trimmed_start(text) == trimmed_start(text.drop_first()));
        assert(text =~= cut + trimmed_start(text));
        assert forall|i: int| 0 <= i < cut.len() implies is_space(#[trigger] cut[i]) by {
            if i > 0 {
                assert(cut[i] == rest[i - 1]);
            }
        }
        cut
    } else {
        assert(text =~= Seq::<char>::empty() + text);
        Seq::empty()
    }
}

proof fn lemma_end_cut(text: Seq<char>) -> (cut: Seq<char>)
    ensures
        text == trimmed_end(text) + cut,
        is_blank(cut),
        trimmed_end(text).len() > 0 ==> !is_space(trimmed_end(text).last()),
    decreases text.len(),
{
    if text.len() > 0 && is_space(text.last()) {
        let rest = lemma_end_cut(text.drop_last());
        let cut = rest.push(text.last());
        assert(text =~= text.drop_last().push(text.last()));
        assert(trimmed_end(text) == trimmed_end(text.drop_last()));
        assert(text =~= trimmed_end(text) + cut);
        assert forall|i: int| 0 <= i < cut.len() implies is_space(#[trigger] cut[i]) by {
            if i < rest.len() {
                assert(cut[i] == rest[i]);
            }
        }
        cut
    } else {
        assert(text =~= text + Seq::<char>::empty());
        Seq::empty()
    }
}

/// Letters in lower case, and everything but letters of ASCII, stay as they are. Of the letters of ASCII in
/// upper case none is left: each becomes the letter in lower case that has its place in the alphabet.
pub proof fn law_lowered_letters(text: Seq<char>, i: int)
    requires
        0 <= i < text.len(),
    ensures
        lowered(text).len() == text.len(),
        !('A' <= text[i] <= 'Z') ==> lowered(text)[i] == text[i],
        'A' <= text[i] <= 'Z' ==> lowered(text)[i] as int - 'a' as int == text[i] as int
            - 'A' as int,
        lowered(lowered(text)) == lowered(text),
{
    assert forall|k: int| 0 <= k < text.len() implies lower(lower(#[trigger] text[k])) == lower(
        text[k],
    ) by {
        if 'A' <= text[k] <= 'Z' {
            assert(lower(text[k]) as u32 == text[k] as u32 + 32);
        }
    }
    assert(lowered(lowered(text)) =~= lowered(text));
}

/// A text begins, ends or goes on with a part exactly if something stands behind it, before it, or both.
pub proof fn law_parts_of_a_text(before: Seq<char>, part: Seq<char>, after: Seq<char>)
    ensures
        has_prefix(part + after, part),
        has_suffix(before + part, part),
        holds(before + part + after, part),
{
    assert((part + after).take(part.len() as int) =~= part);
    assert((before + part).skip((before + part).len() - part.len()) =~= part);
    assert((before + part + after).subrange(before.len() as int, (before.len() + part.len()) as int)
        =~= part);
    assert(holds_at(before + part + after, part, before.len() as int));
}

/// What a text is said to begin with, end with or hold can be taken out of it.
pub proof fn law_found_parts_are_there(text: Seq<char>, part: Seq<char>)
    ensures
        has_prefix(text, part) ==> text == part + text.skip(part.len() as int),
        has_suffix(text, part) ==> text == text.take(text.len() - part.len()) + part,
        holds(text, part) ==> exists|before: Seq<char>, after: Seq<char>| text == #[trigger] (before
            + part + after),
{
    if has_prefix(text, part) {
        assert(text =~= text.take(part.len() as int) + text.skip(part.len() as int));
    }
    if has_suffix(text, part) {
        let cut = text.len() - part.len();
        assert(text =~= text.take(cut) + text.skip(cut));
    }
    if holds(text, part) {
        let at = choose|at: int| holds_at(text, part, at);
        assert(text =~= text.take(at) + part + text.skip(at + part.len()));
    }
}

/// A text is split exactly at its separators: what stands behind the last one, and holds none, is the last part, and the
/// parts before it are those of the text before. A text without a separator is one part.
pub proof fn law_separators_separate(text: Seq<char>, separator: char, part: Seq<char>)
    requires
        forall|i: int| 0 <= i < part.len() ==> #[trigger] part[i] != separator,
    ensures
        segments(text.push(separator) + part, separator) == segments(text, separator).push(part),
        segments(part, separator) == seq![part],
    decreases part.len(),
{
    let before = text.push(separator);
    if part.len() == 0 {
        assert(before + part =~= before);
        assert(before.drop_last() =~= text);
        assert(part =~= Seq::empty());
        assert(segments(before, separator) =~= segments(text, separator).push(part));
    } else {
        let head = part.drop_last();
        assert forall|i: int| 0 <= i < head.len() implies #[trigger] head[i] != separator by {
            assert(part[i] != separator);
        }
        law_separators_separate(text, separator, head);
        let whole = before + part;
        assert(whole.drop_last() =~= before + head);
        assert(whole.last() == part.last());
        assert(part[part.len() - 1] != separator);
        let parts = segments(text, separator).push(head);
        assert(parts.drop_last() =~= segments(text, separator));
        assert(head.push(part.last()) =~= part);
        assert(segments(whole, separator) =~= segments(text, separator).push(part));
        assert(segments(part, separator) =~= seq![part]) by {
            assert(segments(head, separator) == seq![head]);
            assert(seq![head].drop_last() =~= Seq::empty());
        }
    }
}

/// The filled parts of a list are its texts without the white space around them, in their order, but for those of which
/// nothing is left.
pub proof fn law_filled_texts(a: Seq<Seq<char>>, b: Seq<Seq<char>>, text: Seq<char>)
    ensures
        filled(a + b) == filled(a) + filled(b),
        is_blank(text) ==> filled(seq![text]) == Seq::<Seq<char>>::empty(),
        trimmed(text).len() > 0 ==> filled(seq![text]) == seq![trimmed(text)],
{
    lemma_filled_concat(a, b);
    let one = seq![text];
    assert(one.drop_last() =~= Seq::empty());
    assert(filled(one.drop_last()) =~= Seq::empty());
    if is_blank(text) {
        lemma_trimmed_blank(text);
    }
    if trimmed(text).len() > 0 {
        assert(filled(one) =~= seq![trimmed(text)]);
    }
}

/// White space is what Unicode counts as such: blanks, tabulators and the ends of lines among them, and no letter, digit or
/// sign of ASCII.
pub proof fn law_white_space(ch: char)
    ensures
        is_space(' ') && is_space('\t') && is_space('\n') && is_space('\r'),
        '!' <= ch <= '~' ==> !is_space(ch),
{
}

} // verus!
