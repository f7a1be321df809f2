//! Text helpers: comparison, prefixes, decimal numbers and digests in their textual form.

use vstd::prelude::*;

verus! {

/// `String::push` appends one character.
pub assume_specification[ String::push ](s: &mut String, ch: char)
    ensures
        final(s)@ == old(s)@.push(ch),
;

/// Whether two texts hold the same characters.
pub fn same(a: &str, b: &str) -> (r: bool)
    ensures
        r == (a@ == b@),
{
    a.to_owned() == b.to_owned()
}

/// The characters of a text, in order.
pub fn chars_of(s: &str) -> (r: Vec<char>)
    ensures
        r@ == s@,
{
    let mut out: Vec<char> = Vec::new();
    for c in it: s.chars()
        invariant
            out@ == it.seq().take(it.index() as int),
            it.seq() == s@,
    {
        out.push(c);
    }
    assert(out@ == s@);
    out
}

/// The text that holds the given characters.
pub fn text_of(chars: &[char]) -> (r: String)
    ensures
        r@ == chars@,
{
    let mut out = String::new();
    let mut i: usize = 0;
    while i < chars.len()
        invariant
            i <= chars.len(),
            out@ == chars@.take(i as int),
        decreases chars.len() - i,
    {
        out.push(chars[i]);
        i += 1;
    }
    assert(out@ == chars@);
    out
}

/// What follows `prefix` in a text that begins with it.
pub open spec fn after_prefix(s: Seq<char>, prefix: Seq<char>) -> Option<Seq<char>> {
    if s.len() >= prefix.len() && s.take(prefix.len() as int) == prefix {
        Some(s.skip(prefix.len() as int))
    } else {
        None
    }
}

/// What stands before `suffix` in a text that ends with it.
pub open spec fn before_suffix(s: Seq<char>, suffix: Seq<char>) -> Option<Seq<char>> {
    if s.len() >= suffix.len() && s.skip(s.len() - suffix.len()) == suffix {
        Some(s.take(s.len() - suffix.len()))
    } else {
        None
    }
}

pub fn strip_prefix(s: &str, prefix: &str) -> (r: Option<String>)
    ensures
        (match r {
            Some(rest) => Some(rest@),
            None => None,
        }) == after_prefix(s@, prefix@),
{
    let text = chars_of(s);
    let head = chars_of(prefix);
    if text.len() < head.len() {
        return None;
    }
    let mut i: usize = 0;
    while i < head.len()
        invariant
            i <= head.len() <= text.len(),
            text@ == s@,
            head@ == prefix@,
            text@.take(i as int) == head@.take(i as int),
        decreases head.len() - i,
    {
        if text[i] != head[i] {
            assert(text@.take(head@.len() as int)[i as int] != head@[i as int]);
            return None;
        }
        assert(text@.take(i + 1) == text@.take(i as int).push(text@[i as int]));
        assert(head@.take(i + 1) == head@.take(i as int).push(head@[i as int]));
        i += 1;
    }
    assert(head@.take(i as int) == head@);
    let rest = vstd::slice::slice_subrange(text.as_slice(), head.len(), text.len());
    assert(rest@ == s@.skip(head@.len() as int));
    Some(text_of(rest))
}

pub fn strip_suffix(s: &str, suffix: &str) -> (r: Option<String>)
    ensures
        (match r {
            Some(rest) => Some(rest@),
            None => None,
        }) == before_suffix(s@, suffix@),
{
    let text = chars_of(s);
    let tail = chars_of(suffix);
    if text.len() < tail.len() {
        return None;
    }
    let start: usize = text.len() - tail.len();
    let mut i: usize = 0;
    while i < tail.len()
        invariant
            i <= tail.len() <= text.len(),
            text@ == s@,
            tail@ == suffix@,
            start == text.len() - tail.len(),
            forall|j: int| 0 <= j < i ==> #[trigger] text@[start + j] == tail@[j],
        decreases tail.len() - i,
    {
        if text[start + i] != tail[i] {
            assert(text@.skip(start as int)[i as int] != tail@[i as int]);
            return None;
        }
        i += 1;
    }
    assert forall|j: int| 0 <= j < tail.len() implies text@.skip(start as int)[j] == tail@[j] by {
        assert(text@[start + j] == tail@[j]);
    }
    assert(text@.skip(start as int) == tail@);
    let rest = vstd::slice::slice_subrange(text.as_slice(), 0, start);
    assert(rest@ == s@.take(start as int));
    Some(text_of(rest))
}

pub fn starts_with(s: &str, prefix: &str) -> (r: bool)
    ensures
        r == (after_prefix(s@, prefix@) is Some),
{
    strip_prefix(s, prefix).is_some()
}

/// How many bytes a character takes in UTF-8.
pub open spec fn utf8_width(c: char) -> nat {
    if c as u32 <= 0x7f {
        1
    } else if c as u32 <= 0x7ff {
        2
    } else if c as u32 <= 0xffff {
        3
    } else {
        4
    }
}

/// The characters that make up exactly the first `bytes` bytes of a text, where some do.
pub open spec fn byte_prefix(s: Seq<char>, bytes: nat) -> Option<Seq<char>>
    decreases s.len(),
{
    if bytes == 0 {
        Some(Seq::empty())
    } else if s.len() == 0 || utf8_width(s[0]) > bytes {
        None
    } else {
        match byte_prefix(s.skip(1), (bytes - utf8_width(s[0])) as nat) {
            Some(rest) => Some(seq![s[0]] + rest),
            None => None,
        }
    }
}

pub fn take_bytes(s: &str, bytes: usize) -> (r: Option<String>)
    ensures
        (match r {
            Some(part) => Some(part@),
            None => None,
        }) == byte_prefix(s@, bytes as nat),
{
    let text = chars_of(s);
    let mut out = String::new();
    let mut left: usize = bytes;
    let mut i: usize = 0;
    assert(text@.skip(0) == s@);
    while left > 0
        invariant
            i <= text.len(),
            text@ == s@,
            left <= bytes,
            byte_prefix(s@, bytes as nat) == (match byte_prefix(text@.skip(i as int), left as nat) {
                Some(rest) => Some(out@ + rest),
                None => None,
            }),
        decreases text.len() - i, left,
    {
        if i >= text.len() {
            return None;
        }
        let c = text[i];
        let code = c as u32;
        let width: usize = if code <= 0x7f {
            1
        } else if code <= 0x7ff {
            2
        } else if code <= 0xffff {
            3
        } else {
            4
        };
        if width > left {
            return None;
        }
        let ghost before = out@;
        let ghost tail = text@.skip(i as int);
        assert(tail.skip(1) == text@.skip(i + 1));
        assert(tail[0] == c);
        out.push(c);
        assert forall|rest: Seq<char>| before + (seq![c] + rest) == #[trigger] (out@ + rest) by {
            assert(before + (seq![c] + rest) =~= out@ + rest);
        }
        left -= width;
        i += 1;
    }
    assert(out@ + Seq::<char>::empty() == out@);
    Some(out)
}

/// Whether `c` is an ASCII decimal digit.
pub open spec fn is_digit(c: char) -> bool {
    48 <= c as u32 <= 57
}

/// The number that a run of decimal digits denotes.
pub open spec fn decimal_value(s: Seq<char>) -> nat
    decreases s.len(),
{
    if s.len() == 0 {
        0
    } else {
        (decimal_value(s.drop_last()) * 10 + (s.last() as u32 - 48)) as nat
    }
}

/// Whether `s` is a non-empty run of decimal digits.
pub open spec fn is_decimal(s: Seq<char>) -> bool {
    s.len() > 0 && forall|i: int| 0 <= i < s.len() ==> is_digit(#[trigger] s[i])
}

/// What an unsigned number text denotes: an optional plus sign and a run of digits that
/// stays within `u64`.
pub open spec fn parsed_u64(s: Seq<char>) -> Option<u64> {
    let digits = if s.len() > 0 && s[0] == '+' {
        s.skip(1)
    } else {
        s
    };
    if is_decimal(digits) && decimal_value(digits) <= u64::MAX {
        Some(decimal_value(digits) as u64)
    } else {
        None
    }
}

/// The shortest decimal text of a number.
pub open spec fn decimal_text(n: nat) -> Seq<char>
    decreases n,
{
    if n < 10 {
        seq![((48 + n) as u32) as char]
    } else {
        decimal_text(n / 10).push(((48 + n % 10) as u32) as char)
    }
}

proof fn lemma_decimal_grows(s: Seq<char>, k: int)
    requires
        0 <= k <= s.len(),
        is_decimal(s),
    ensures
        decimal_value(s.take(k)) <= decimal_value(s),
    decreases s.len() - k,
{
    if k < s.len() {
        lemma_decimal_grows(s, k + 1);
        assert(s.take(k + 1).drop_last() == s.take(k));
        assert(is_digit(s[k]));
    } else {
        assert(s.take(k) == s);
    }
}

/// The value of an unsigned number text, where it is one.
pub fn parse_u64(s: &str) -> (r: Option<u64>)
    ensures
        r == parsed_u64(s@),
{
    let text = chars_of(s);
    let start: usize = if text.len() > 0 && text[0] == '+' {
        1
    } else {
        0
    };
    let ghost digits = s@.skip(start as int);
    assert(s@.skip(0) == s@);
    if start >= text.len() {
        return None;
    }
    let mut value: u64 = 0;
    let mut i: usize = start;
    while i < text.len()
        invariant
            start <= i <= text.len(),
            start < text.len(),
            text@ == s@,
            digits == s@.skip(start as int),
            parsed_u64(s@) == (if is_decimal(digits) && decimal_value(digits) <= u64::MAX {
                Some(decimal_value(digits) as u64)
            } else {
                None
            }),
            forall|j: int| 0 <= j < i - start ==> is_digit(#[trigger] digits[j]),
            value == decimal_value(digits.take(i - start)),
        decreases text.len() - i,
    {
        let c = text[i];
        let code = c as u32;
        assert(digits[i - start] == c);
        if code < 48 || code > 57 {
            return None;
        }
        assert(digits.take(i - start + 1).drop_last() == digits.take(i - start));
        assert(digits.take(i - start + 1).last() == c);
        proof {
            if is_decimal(digits) {
                lemma_decimal_grows(digits, i - start + 1);
            }
        }
        let tens = match value.checked_mul(10) {
            Some(tens) => tens,
            None => return None,
        };
        value = match tens.checked_add((code - 48) as u64) {
            Some(sum) => sum,
            None => return None,
        };
        i += 1;
    }
    assert(digits.take(i - start) == digits);
    Some(value)
}

/// The shortest decimal text of a number.
pub fn decimal(n: u64) -> (r: String)
    ensures
        r@ == decimal_text(n as nat),
    decreases n,
{
    if n < 10 {
        let mut out = String::new();
        out.push(digit_char(n));
        assert(out@ == decimal_text(n as nat));
        out
    } else {
        let mut out = decimal(n / 10);
        out.push(digit_char(n % 10));
        out
    }
}

fn digit_char(d: u64) -> (r: char)
    requires
        d < 10,
    ensures
        r == ((48 + d) as u32) as char,
{
    match d {
        0 => '0',
        1 => '1',
        2 => '2',
        3 => '3',
        4 => '4',
        5 => '5',
        6 => '6',
        7 => '7',
        8 => '8',
        _ => '9',
    }
}

/// A number's decimal text denotes that number.
pub proof fn decimal_text_denotes_its_number(n: nat)
    ensures
        is_decimal(decimal_text(n)),
        decimal_value(decimal_text(n)) == n,
        n <= u64::MAX ==> parsed_u64(decimal_text(n)) == Some(n as u64),
    decreases n,
{
    let text = decimal_text(n);
    if n < 10 {
        assert(text.drop_last() == Seq::<char>::empty());
        assert(decimal_value(text.drop_last()) == 0);
    } else {
        decimal_text_denotes_its_number(n / 10);
        assert(text.drop_last() == decimal_text(n / 10));
        assert forall|i: int| 0 <= i < text.len() implies is_digit(#[trigger] text[i]) by {
            if i < text.len() - 1 {
                assert(text[i] == decimal_text(n / 10)[i]);
            }
        }
    }
    assert(is_digit(text[0]));
}

/// Whether `c` is Unicode white space.
pub open spec fn is_space(c: char) -> bool {
    let u = c as u32;
    ||| 9 <= u <= 13
    ||| u == 32
    ||| u == 0x85
    ||| u == 0xa0
    ||| u == 0x1680
    ||| 0x2000 <= u <= 0x200a
    ||| u == 0x2028
    ||| u == 0x2029
    ||| u == 0x202f
    ||| u == 0x205f
    ||| u == 0x3000
}

pub fn space(c: char) -> (r: bool)
    ensures
        r == is_space(c),
{
    let u = c as u32;
    (9 <= u && u <= 13) || u == 32 || u == 0x85 || u == 0xa0 || u == 0x1680 || (0x2000 <= u && u
        <= 0x200a) || u == 0x2028 || u == 0x2029 || u == 0x202f || u == 0x205f || u == 0x3000
}

/// Whether a text holds nothing but white space.
pub open spec fn is_blank(s: Seq<char>) -> bool {
    forall|i: int| 0 <= i < s.len() ==> is_space(#[trigger] s[i])
}

pub fn blank(s: &str) -> (r: bool)
    ensures
        r == is_blank(s@),
{
    let text = chars_of(s);
    let mut i: usize = 0;
    while i < text.len()
        invariant
            i <= text.len(),
            text@ == s@,
            forall|j: int| 0 <= j < i ==> is_space(#[trigger] s@[j]),
        decreases text.len() - i,
    {
        if !space(text[i]) {
            assert(!is_space(s@[i as int]));
            return false;
        }
        i += 1;
    }
    true
}

/// A text without the white space at its start.
pub open spec fn trimmed_start(s: Seq<char>) -> Seq<char>
    decreases s.len(),
{
    if s.len() > 0 && is_space(s[0]) {
        trimmed_start(s.skip(1))
    } else {
        s
    }
}

/// A text without the white space at its end.
pub open spec fn trimmed_end(s: Seq<char>) -> Seq<char>
    decreases s.len(),
{
    if s.len() > 0 && is_space(s.last()) {
        trimmed_end(s.drop_last())
    } else {
        s
    }
}

/// A text without the white space around it.
pub open spec fn trimmed(s: Seq<char>) -> Seq<char> {
    trimmed_end(trimmed_start(s))
}

pub fn trim(s: &str) -> (r: String)
    ensures
        r@ == trimmed(s@),
{
    let text = chars_of(s);
    let mut start: usize = 0;
    assert(text@.skip(0) == s@);
    while start < text.len() && space(text[start])
        invariant
            start <= text.len(),
            trimmed_start(s@) == trimmed_start(text@.skip(start as int)),
        decreases text.len() - start,
    {
        assert(text@.skip(start as int).skip(1) == text@.skip(start + 1));
        start += 1;
    }
    let ghost rest = text@.skip(start as int);
    assert(trimmed_start(s@) == rest);
    let mut end: usize = text.len();
    assert(text@.subrange(start as int, end as int) == rest);
    while end > start && space(text[end - 1])
        invariant
            start <= end <= text.len(),
            trimmed_end(rest) == trimmed_end(text@.subrange(start as int, end as int)),
        decreases end - start,
    {
        assert(text@.subrange(start as int, end as int).drop_last() == text@.subrange(
            start as int,
            end - 1,
        ));
        end -= 1;
    }
    text_of(vstd::slice::slice_subrange(text.as_slice(), start, end))
}

/// The ASCII lower case of a character; every other character stays.
pub open spec fn lower(c: char) -> char {
    if 65 <= c as u32 <= 90 {
        ((c as u32 + 32) as u32) as char
    } else {
        c
    }
}

/// A text in ASCII lower case.
pub open spec fn lowered(s: Seq<char>) -> Seq<char> {
    s.map_values(|c: char| lower(c))
}

fn lower_char(c: char) -> (r: char)
    ensures
        r == lower(c),
{
    let u = c as u32;
    if 65 <= u && u <= 90 {
        (u as u8 + 32) as char
    } else {
        c
    }
}

pub fn lowercase(s: &str) -> (r: String)
    ensures
        r@ == lowered(s@),
{
    let text = chars_of(s);
    let mut out = String::new();
    let mut i: usize = 0;
    while i < text.len()
        invariant
            i <= text.len(),
            text@ == s@,
            out@ == lowered(s@.take(i as int)),
        decreases text.len() - i,
    {
        out.push(lower_char(text[i]));
        assert(lowered(s@.take(i + 1)) == lowered(s@.take(i as int)).push(lower(s@[i as int])));
        i += 1;
    }
    assert(s@.take(i as int) == s@);
    out
}

/// What stands before the first `c` in a text, or the whole of it.
pub open spec fn before_first(s: Seq<char>, c: char) -> Seq<char>
    decreases s.len(),
{
    if s.len() == 0 || s[0] == c {
        Seq::empty()
    } else {
        seq![s[0]] + before_first(s.skip(1), c)
    }
}

pub fn take_before(s: &str, c: char) -> (r: String)
    ensures
        r@ == before_first(s@, c),
{
    let text = chars_of(s);
    let mut out = String::new();
    let mut i: usize = 0;
    assert(text@.skip(0) == s@);
    while i < text.len()
        invariant
            i <= text.len(),
            before_first(s@, c) == out@ + before_first(text@.skip(i as int), c),
        decreases text.len() - i,
    {
        let ghost rest = text@.skip(i as int);
        assert(rest.skip(1) == text@.skip(i + 1));
        if text[i] == c {
            assert(out@ + Seq::<char>::empty() == out@);
            return out;
        }
        let ghost before = out@;
        out.push(text[i]);
        assert(before + (seq![rest[0]] + before_first(rest.skip(1), c)) == out@ + before_first(
            rest.skip(1),
            c,
        ));
        i += 1;
    }
    assert(out@ + Seq::<char>::empty() == out@);
    out
}

/// Whether a byte is a visible ASCII character, a space or a tab.
pub open spec fn is_visible(b: u8) -> bool {
    32 <= b < 127 || b == 9
}

/// The text of a header value, where all its bytes are visible.
pub open spec fn visible_text(bytes: Seq<u8>) -> Option<Seq<char>> {
    if forall|i: int| 0 <= i < bytes.len() ==> is_visible(#[trigger] bytes[i]) {
        Some(bytes.map_values(|b: u8| b as char))
    } else {
        None
    }
}

pub fn header_text(bytes: &[u8]) -> (r: Option<String>)
    ensures
        (match r {
            Some(text) => Some(text@),
            None => None,
        }) == visible_text(bytes@),
{
    let mut out = String::new();
    let mut i: usize = 0;
    while i < bytes.len()
        invariant
            i <= bytes.len(),
            out@ == bytes@.take(i as int).map_values(|b: u8| b as char),
            forall|j: int| 0 <= j < i ==> is_visible(#[trigger] bytes@[j]),
        decreases bytes.len() - i,
    {
        let b = bytes[i];
        if !((32 <= b && b < 127) || b == 9) {
            assert(!is_visible(bytes@[i as int]));
            return None;
        }
        out.push(b as char);
        assert(bytes@.take(i + 1).map_values(|b: u8| b as char) == bytes@.take(
            i as int,
        ).map_values(|b: u8| b as char).push(b as char));
        i += 1;
    }
    assert(bytes@.take(i as int) == bytes@);
    Some(out)
}

/// `std::str::from_utf8` reads bytes as text where they are UTF-8.
#[verifier::external_body]
fn read_utf8(bytes: &[u8]) -> (r: Option<&str>)
    ensures
        match r {
            Some(text) => vstd::utf8::encode_utf8(text@) == bytes@,
            None => !vstd::utf8::valid_utf8(bytes@),
        },
{
    std::str::from_utf8(bytes).ok()
}

/// The text of some bytes, where they are UTF-8.
pub open spec fn utf8_text(bytes: Seq<u8>) -> Option<Seq<char>> {
    if vstd::utf8::valid_utf8(bytes) {
        Some(vstd::utf8::decode_utf8(bytes))
    } else {
        None
    }
}

pub fn text_of_bytes(bytes: &[u8]) -> (r: Option<String>)
    ensures
        (match r {
            Some(text) => Some(text@),
            None => None,
        }) == utf8_text(bytes@),
{
    broadcast use vstd::utf8::encode_utf8_decode_utf8, vstd::utf8::encode_utf8_valid_utf8;

    match read_utf8(bytes) {
        Some(text) => Some(text.to_owned()),
        None => None,
    }
}

/// Whether a text holds a character.
pub fn has_char(s: &str, c: char) -> (r: bool)
    ensures
        r == s@.contains(c),
{
    let text = chars_of(s);
    let mut i: usize = 0;
    while i < text.len()
        invariant
            i <= text.len(),
            text@ == s@,
            forall|j: int| 0 <= j < i ==> #[trigger] s@[j] != c,
        decreases text.len() - i,
    {
        if text[i] == c {
            assert(s@[i as int] == c);
            return true;
        }
        i += 1;
    }
    false
}

/// The bytes that a text takes.
pub open spec fn byte_len(s: Seq<char>) -> nat {
    vstd::utf8::encode_utf8(s).len()
}

pub fn bytes_in(s: &str) -> (r: usize)
    ensures
        r == byte_len(s@),
{
    s.as_bytes().len()
}

/// Whether `c` is an ASCII letter or digit.
pub open spec fn is_alphanumeric(c: char) -> bool {
    let u = c as u32;
    48 <= u <= 57 || 65 <= u <= 90 || 97 <= u <= 122
}

pub fn alphanumeric(c: char) -> (r: bool)
    ensures
        r == is_alphanumeric(c),
{
    let u = c as u32;
    (48 <= u && u <= 57) || (65 <= u && u <= 90) || (97 <= u && u <= 122)
}

/// Whether `c` is a decimal digit.
pub fn digit(c: char) -> (r: bool)
    ensures
        r == is_digit(c),
{
    let u = c as u32;
    48 <= u && u <= 57
}

/// Whether a text is an identifier: one to a hundred and twenty-eight letters, digits, hyphens
/// and underscores.
pub open spec fn is_identifier(s: Seq<char>) -> bool {
    0 < s.len() <= 128 && forall|i: int|
        0 <= i < s.len() ==> is_alphanumeric(#[trigger] s[i]) || s[i] == '_' || s[i] == '-'
}

pub fn identifier(s: &str) -> (r: bool)
    ensures
        r == is_identifier(s@),
{
    let text = chars_of(s);
    if text.len() == 0 || text.len() > 128 {
        return false;
    }
    let mut i: usize = 0;
    while i < text.len()
        invariant
            i <= text.len(),
            text@ == s@,
            forall|j: int|
                0 <= j < i ==> is_alphanumeric(#[trigger] s@[j]) || s@[j] == '_' || s@[j] == '-',
        decreases text.len() - i,
    {
        if !alphanumeric(text[i]) && text[i] != '_' && text[i] != '-' {
            assert(!(is_alphanumeric(s@[i as int]) || s@[i as int] == '_' || s@[i as int] == '-'));
            return false;
        }
        i += 1;
    }
    true
}

/// Whether a text is a run of decimal digits.
pub fn decimal_digits(s: &str) -> (r: bool)
    ensures
        r == is_decimal(s@),
{
    let text = chars_of(s);
    if text.len() == 0 {
        return false;
    }
    let mut i: usize = 0;
    while i < text.len()
        invariant
            i <= text.len(),
            text@ == s@,
            forall|j: int| 0 <= j < i ==> is_digit(#[trigger] s@[j]),
        decreases text.len() - i,
    {
        let code = text[i] as u32;
        if code < 48 || code > 57 {
            assert(!is_digit(s@[i as int]));
            return false;
        }
        i += 1;
    }
    true
}

/// Whether a path has a `..` component.
pub open spec fn goes_up(path: Seq<char>) -> bool {
    exists|i: int| is_up_at(path, i)
}

/// Whether a `..` component stands at an index of a path.
pub open spec fn is_up_at(path: Seq<char>, i: int) -> bool {
    &&& 0 <= i < path.len() - 1
    &&& path[i] == '.'
    &&& path[i + 1] == '.'
    &&& i == 0 || path[i - 1] == '/'
    &&& i + 2 == path.len() || path[i + 2] == '/'
}

/// Whether a path starts at the root and never goes up.
pub open spec fn is_plain_absolute(path: Seq<char>) -> bool {
    path.len() > 0 && path[0] == '/' && !goes_up(path)
}

pub fn plain_absolute(path: &str) -> (r: bool)
    ensures
        r == is_plain_absolute(path@),
{
    let text = chars_of(path);
    if text.len() == 0 || text[0] != '/' {
        return false;
    }
    let mut i: usize = 0;
    while i < text.len() - 1
        invariant
            i <= text.len(),
            text.len() > 0,
            text@ == path@,
            forall|j: int| 0 <= j < i ==> !is_up_at(path@, j),
        decreases text.len() - i,
    {
        if text[i] == '.' && text[i + 1] == '.' && (i == 0 || text[i - 1] == '/') && (i + 2
            == text.len() || text[i + 2] == '/') {
            assert(is_up_at(path@, i as int));
            return false;
        }
        i += 1;
    }
    true
}

/// Whether a text comes before another: by the first character in which they differ, and a text
/// before those that it begins.
pub open spec fn precedes(a: Seq<char>, b: Seq<char>) -> bool
    decreases a.len(),
{
    if b.len() == 0 {
        false
    } else if a.len() == 0 {
        true
    } else if a[0] != b[0] {
        (a[0] as int) < (b[0] as int)
    } else {
        precedes(a.skip(1), b.skip(1))
    }
}

fn code_of(c: char) -> (r: u32)
    ensures
        r == c as int,
{
    c as u32
}

pub fn comes_before(a: &str, b: &str) -> (r: bool)
    ensures
        r == precedes(a@, b@),
{
    let first = chars_of(a);
    let second = chars_of(b);
    let mut i: usize = 0;
    assert(a@.skip(0) == a@ && b@.skip(0) == b@);
    while i < first.len() && i < second.len() && first[i] == second[i]
        invariant
            i <= first.len(),
            i <= second.len(),
            first@ == a@,
            second@ == b@,
            precedes(a@, b@) == precedes(a@.skip(i as int), b@.skip(i as int)),
        decreases first.len() - i,
    {
        assert(a@.skip(i as int).skip(1) == a@.skip(i + 1));
        assert(b@.skip(i as int).skip(1) == b@.skip(i + 1));
        i += 1;
    }
    if i >= second.len() {
        false
    } else if i >= first.len() {
        true
    } else {
        code_of(first[i]) < code_of(second[i])
    }
}

/// A list in order with one more text put in its place, unless it is there.
pub open spec fn put_in_order(list: Seq<Seq<char>>, text: Seq<char>) -> Seq<Seq<char>>
    decreases list.len(),
{
    if list.len() == 0 {
        seq![text]
    } else if list[0] == text {
        list
    } else if precedes(text, list[0]) {
        seq![text] + list
    } else {
        seq![list[0]] + put_in_order(list.skip(1), text)
    }
}

/// The different texts of a list in order.
pub open spec fn in_order(list: Seq<Seq<char>>) -> Seq<Seq<char>>
    decreases list.len(),
{
    if list.len() == 0 {
        Seq::empty()
    } else {
        put_in_order(in_order(list.drop_last()), list.last())
    }
}

pub open spec fn views_of(texts: Seq<String>) -> Seq<Seq<char>> {
    texts.map_values(|text: String| text@)
}

proof fn lemma_put_in_order_skip(list: Seq<Seq<char>>, text: Seq<char>, k: int)
    requires
        0 <= k <= list.len(),
        forall|i: int| 0 <= i < k ==> #[trigger] list[i] != text && !precedes(text, list[i]),
    ensures
        put_in_order(list, text) == list.take(k) + put_in_order(list.skip(k), text),
    decreases k,
{
    if k == 0 {
        assert(list.skip(0) == list);
        assert(list.take(0) + put_in_order(list, text) == put_in_order(list, text));
    } else {
        assert(list[0] != text && !precedes(text, list[0]));
        let rest = list.skip(1);
        assert forall|i: int| 0 <= i < k - 1 implies #[trigger] rest[i] != text && !precedes(
            text,
            rest[i],
        ) by {
            assert(rest[i] == list[i + 1]);
        }
        lemma_put_in_order_skip(rest, text, k - 1);
        assert(rest.skip(k - 1) == list.skip(k));
        assert(list.take(k) == seq![list[0]] + rest.take(k - 1));
        assert(put_in_order(list, text) == list.take(k) + put_in_order(list.skip(k), text));
    }
}

/// Puts a text in its place in an ordered list.
pub fn insert_in_order(list: &mut Vec<String>, text: &str)
    ensures
        views_of(final(list)@) == put_in_order(views_of(old(list)@), text@),
{
    let ghost all = views_of(list@);
    let mut i: usize = 0;
    while i < list.len() && !same(list[i].as_str(), text) && !comes_before(text, list[i].as_str())
        invariant
            i <= list.len(),
            all == views_of(list@),
            list@ == old(list)@,
            forall|j: int| 0 <= j < i ==> #[trigger] all[j] != text@ && !precedes(text@, all[j]),
        decreases list.len() - i,
    {
        assert(all[i as int] == list@[i as int]@);
        i += 1;
    }
    proof {
        lemma_put_in_order_skip(all, text@, i as int);
        if i < all.len() {
            assert(all.skip(i as int)[0] == all[i as int]);
            assert(all[i as int] == list@[i as int]@);
        }
        assert(all.take(i as int) + all.skip(i as int) == all);
    }
    if i < list.len() && same(list[i].as_str(), text) {
        return;
    }
    let ghost before = list@;
    list.insert(i, text.to_owned());
    proof {
        assert(views_of(list@) == all.take(i as int) + put_in_order(all.skip(i as int), text@));
    }
}

/// Puts the different texts of a list in order.
pub fn ordered(list: &Vec<String>) -> (r: Vec<String>)
    ensures
        views_of(r@) == in_order(views_of(list@)),
{
    let ghost all = views_of(list@);
    let mut out: Vec<String> = Vec::new();
    let mut i: usize = 0;
    proof {
        assert(all.take(0) =~= Seq::<Seq<char>>::empty());
        assert(views_of(out@) =~= in_order(all.take(0)));
    }
    while i < list.len()
        invariant
            i <= list.len(),
            all == views_of(list@),
            views_of(out@) == in_order(all.take(i as int)),
        decreases list.len() - i,
    {
        proof {
            assert(all.take(i + 1).drop_last() == all.take(i as int));
            assert(all.take(i + 1).last() == list@[i as int]@);
        }
        insert_in_order(&mut out, list[i].as_str());
        i += 1;
    }
    assert(all.take(i as int) == all);
    out
}

/// No text comes before itself.
pub proof fn lemma_precedes_itself(text: Seq<char>)
    ensures
        !precedes(text, text),
{
    lemma_precedes_total(text, text);
}

proof fn lemma_precedes_total(a: Seq<char>, b: Seq<char>)
    ensures
        a != b ==> precedes(a, b) || precedes(b, a),
        !(precedes(a, b) && precedes(b, a)),
        !precedes(a, a),
    decreases a.len(),
{
    if a.len() > 0 {
        lemma_precedes_total(a.skip(1), a.skip(1));
    }
    if a.len() > 0 && b.len() > 0 && a[0] == b[0] {
        lemma_precedes_total(a.skip(1), b.skip(1));
        if a.skip(1) == b.skip(1) {
            assert(a == b) by {
                assert(a.len() == a.skip(1).len() + 1);
                assert(b.len() == b.skip(1).len() + 1);
                assert forall|i: int| 0 <= i < a.len() implies a[i] == b[i] by {
                    if i > 0 {
                        assert(a.skip(1)[i - 1] == b.skip(1)[i - 1]);
                    }
                }
            }
        }
    } else if a.len() > 0 && b.len() > 0 {
        assert(a[0] as int != b[0] as int);
    } else if a.len() == 0 && b.len() == 0 {
        assert(a =~= b);
    }
}

proof fn lemma_precedes_transitive(a: Seq<char>, b: Seq<char>, c: Seq<char>)
    requires
        precedes(a, b),
        precedes(b, c),
    ensures
        precedes(a, c),
    decreases a.len(),
{
    if a.len() > 0 && b.len() > 0 && c.len() > 0 && a[0] == b[0] && b[0] == c[0] {
        lemma_precedes_transitive(a.skip(1), b.skip(1), c.skip(1));
    }
}

/// Whether each text of a list comes before the next ones.
pub open spec fn is_in_order(list: Seq<Seq<char>>) -> bool {
    forall|i: int, j: int|
        0 <= i < j < list.len() ==> precedes(#[trigger] list[i], #[trigger] list[j])
}

proof fn lemma_put_in_order(list: Seq<Seq<char>>, text: Seq<char>)
    requires
        is_in_order(list),
    ensures
        is_in_order(put_in_order(list, text)),
        forall|other: Seq<char>| #[trigger]
            put_in_order(list, text).contains(other) <==> list.contains(other) || other == text,
    decreases list.len(),
{
    let done = put_in_order(list, text);
    if list.len() == 0 {
        assert forall|other: Seq<char>| #[trigger] done.contains(other) <==> list.contains(other)
            || other == text by {
            assert(done[0] == text);
        }
    } else if list[0] == text {
    } else if precedes(text, list[0]) {
        assert forall|i: int, j: int| 0 <= i < j < done.len() implies precedes(
            #[trigger] done[i],
            #[trigger] done[j],
        ) by {
            assert(done[j] == list[j - 1]);
            if i > 0 {
                assert(done[i] == list[i - 1]);
            } else if j > 1 {
                lemma_precedes_transitive(text, list[0], list[j - 1]);
            }
        }
        assert forall|other: Seq<char>| #[trigger] done.contains(other) <==> list.contains(other)
            || other == text by {
            if list.contains(other) {
                let i = choose|i: int| 0 <= i < list.len() && list[i] == other;
                assert(done[i + 1] == other);
            }
            assert(done[0] == text);
            if done.contains(other) {
                let i = choose|i: int| 0 <= i < done.len() && done[i] == other;
                if i > 0 {
                    assert(list[i - 1] == other);
                }
            }
        }
    } else {
        let rest = list.skip(1);
        assert forall|i: int, j: int| 0 <= i < j < rest.len() implies precedes(
            #[trigger] rest[i],
            #[trigger] rest[j],
        ) by {
            assert(rest[i] == list[i + 1] && rest[j] == list[j + 1]);
        }
        lemma_put_in_order(rest, text);
        lemma_precedes_total(text, list[0]);
        let tail = put_in_order(rest, text);
        assert(done == seq![list[0]] + tail);
        assert forall|j: int| 0 <= j < tail.len() implies precedes(list[0], #[trigger] tail[j]) by {
            assert(tail.contains(tail[j]));
            if rest.contains(tail[j]) {
                let k = choose|k: int| 0 <= k < rest.len() && rest[k] == tail[j];
                assert(list[k + 1] == tail[j]);
            }
        }
        assert forall|i: int, j: int| 0 <= i < j < done.len() implies precedes(
            #[trigger] done[i],
            #[trigger] done[j],
        ) by {
            assert(done[j] == tail[j - 1]);
            if i > 0 {
                assert(done[i] == tail[i - 1]);
            }
        }
        assert forall|other: Seq<char>| #[trigger] done.contains(other) <==> list.contains(other)
            || other == text by {
            assert(tail.contains(other) <==> rest.contains(other) || other == text);
            assert(done[0] == list[0]);
            if tail.contains(other) {
                let k = choose|k: int| 0 <= k < tail.len() && tail[k] == other;
                assert(done[k + 1] == other);
            }
            if rest.contains(other) {
                let k = choose|k: int| 0 <= k < rest.len() && rest[k] == other;
                assert(list[k + 1] == other);
            }
            if list.contains(other) {
                let k = choose|k: int| 0 <= k < list.len() && list[k] == other;
                if k > 0 {
                    assert(rest[k - 1] == other);
                }
            }
            if done.contains(other) {
                let k = choose|k: int| 0 <= k < done.len() && done[k] == other;
                if k > 0 {
                    assert(tail[k - 1] == other);
                }
            }
        }
    }
}

/// A list put in order is in order and has the same texts, each once.
pub proof fn ordered_lists_hold_the_same(list: Seq<Seq<char>>)
    ensures
        is_in_order(in_order(list)),
        forall|text: Seq<char>| #[trigger] in_order(list).contains(text) <==> list.contains(text),
    decreases list.len(),
{
    if list.len() > 0 {
        let init = list.drop_last();
        ordered_lists_hold_the_same(init);
        lemma_put_in_order(in_order(init), list.last());
        assert forall|text: Seq<char>| #[trigger] in_order(list).contains(text) <==> list.contains(
            text,
        ) by {
            assert(in_order(init).contains(text) <==> init.contains(text));
            if list.contains(text) {
                let i = choose|i: int| 0 <= i < list.len() && list[i] == text;
                if i < init.len() {
                    assert(init[i] == text);
                }
            }
            if init.contains(text) {
                let i = choose|i: int| 0 <= i < init.len() && init[i] == text;
                assert(list[i] == text);
            }
            assert(list[list.len() - 1] == list.last());
        }
    }
}

/// The text that `Debug` prints for a string: in quotes, with escapes.
pub uninterp spec fn quoted(text: Seq<char>) -> Seq<char>;

/// Prints a string with the `Debug` format of `str`; what it prints is a function of the string.
#[verifier::external_body]
pub(crate) fn debug_quoted(text: &str) -> (r: String)
    ensures
        r@ == quoted(text@),
{
    format!("{:?}", text)
}

/// What follows the first occurrence of a character.
pub open spec fn after_first(s: Seq<char>, c: char) -> Seq<char> {
    s.skip(before_first(s, c).len() as int + 1)
}

/// Splits a text at the first occurrence of a character.
pub fn split_once(s: &str, c: char) -> (r: Option<(String, String)>)
    ensures
        match r {
            Some((before, after)) => s@.contains(c) && before@ == before_first(s@, c) && after@
                == after_first(s@, c),
            None => !s@.contains(c),
        },
{
    if !has_char(s, c) {
        return None;
    }
    let before = take_before(s, c);
    let chars = chars_of(s);
    let head = chars_of(before.as_str());
    let at: usize = head.len();
    proof {
        lemma_before_first_shorter(s@, c);
        assert(at < chars.len());
    }
    let mut after = String::new();
    let mut i: usize = at + 1;
    assert(after@ =~= s@.subrange(at + 1, at + 1));
    while i < chars.len()
        invariant
            at + 1 <= i <= chars.len(),
            chars@ == s@,
            after@ == s@.subrange(at + 1, i as int),
        decreases chars.len() - i,
    {
        after.push(chars[i]);
        assert(after@ =~= s@.subrange(at + 1, i + 1));
        i += 1;
    }
    assert(after@ =~= s@.skip(at + 1));
    Some((before, after))
}

proof fn lemma_before_first_shorter(s: Seq<char>, c: char)
    requires
        s.contains(c),
    ensures
        before_first(s, c).len() < s.len(),
    decreases s.len(),
{
    if s[0] != c {
        let i = choose|i: int| 0 <= i < s.len() && s[i] == c;
        assert(s.skip(1)[i - 1] == c);
        lemma_before_first_shorter(s.skip(1), c);
    }
}

/// The decimal text of a whole number, with a sign below zero.
pub open spec fn signed_decimal_text(n: int) -> Seq<char> {
    if n < 0 {
        seq!['-'] + decimal_text((-n) as nat)
    } else {
        decimal_text(n as nat)
    }
}

pub fn signed_decimal(n: i64) -> (r: String)
    ensures
        r@ == signed_decimal_text(n as int),
{
    if n >= 0 {
        return decimal(n as u64);
    }
    let magnitude: u64 = if n == i64::MIN {
        0x8000_0000_0000_0000
    } else {
        (-n) as u64
    };
    let mut text = String::new();
    text.push('-');
    text.append(decimal(magnitude).as_str());
    assert(text@ =~= seq!['-'] + decimal_text(magnitude as nat));
    text
}

/// Texts with another one between them.
pub open spec fn joined_with(list: Seq<Seq<char>>, separator: Seq<char>) -> Seq<char>
    decreases list.len(),
{
    if list.len() == 0 {
        Seq::empty()
    } else if list.len() == 1 {
        list[0]
    } else {
        joined_with(list.drop_last(), separator) + separator + list.last()
    }
}

pub fn join_texts(list: &Vec<String>, separator: &str) -> (r: String)
    ensures
        r@ == joined_with(views_of(list@), separator@),
{
    let ghost all = views_of(list@);
    let mut out = String::new();
    let mut i: usize = 0;
    assert(all.take(0) == Seq::<Seq<char>>::empty());
    assert(out@ =~= Seq::<char>::empty());
    while i < list.len()
        invariant
            i <= list.len(),
            all == views_of(list@),
            out@ == joined_with(all.take(i as int), separator@),
        decreases list.len() - i,
    {
        proof {
            assert(all.take(i + 1).drop_last() == all.take(i as int));
            assert(all.take(i + 1).last() == list@[i as int]@);
        }
        let ghost before = out@;
        if i > 0 {
            out.append(separator);
        }
        out.append(list[i].as_str());
        proof {
            if i == 0 {
                assert(all.take(1)[0] == list@[0]@);
                assert(out@ =~= list@[0]@);
            } else {
                assert(out@ =~= before + separator@ + list@[i as int]@);
            }
        }
        i += 1;
    }
    assert(all.take(i as int) == all);
    out
}

/// The last place of a character in a text.
pub open spec fn last_place(s: Seq<char>, c: char) -> Option<int>
    decreases s.len(),
{
    if s.len() == 0 {
        None
    } else if s.last() == c {
        Some(s.len() - 1)
    } else {
        last_place(s.drop_last(), c)
    }
}

/// Finds the last place of a character in a text.
pub fn find_last(s: &str, c: char) -> (r: Option<usize>)
    ensures
        match r {
            Some(i) => last_place(s@, c) == Some(i as int) && i < s@.len(),
            None => last_place(s@, c) is None,
        },
{
    let chars = chars_of(s);
    let mut k: usize = chars.len();
    assert(s@.take(k as int) == s@);
    while k > 0
        invariant
            k <= chars.len(),
            chars@ == s@,
            last_place(s@, c) == last_place(s@.take(k as int), c),
        decreases k,
    {
        let ghost part = s@.take(k as int);
        proof {
            assert(part.last() == s@[k - 1]);
            assert(part.drop_last() == s@.take(k - 1));
        }
        if chars[k - 1] == c {
            return Some(k - 1);
        }
        k -= 1;
    }
    assert(s@.take(0) == Seq::<char>::empty());
    None
}

} // verus!
