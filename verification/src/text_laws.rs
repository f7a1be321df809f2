//! What the text functions give, told by the characters alone.

use vstd::prelude::*;
use crate::digest::{hex, hex_digit};
use crate::paths::split;
use crate::runtime::facts::checked_instant_after;
use crate::text::{
    after_first, before_first, is_space, joined_with, last_place, lowercase, precedes, trim,
    trimmed, trimmed_end, trimmed_start,
};

verus! {

/// A text is its parts with the separator between them, and no part holds the separator.
pub proof fn splitting_loses_nothing(s: Seq<char>, c: char, k: int)
    ensures
        split(s, c).len() > 0,
        joined_with(split(s, c), seq![c]) == s,
        0 <= k < split(s, c).len() ==> !split(s, c)[k].contains(c),
    decreases s.len(),
{
    if s.len() == 0 {
        assert(joined_with(split(s, c), seq![c]) =~= s);
        if k == 0 {
            assert(!split(s, c)[0].contains(c));
        }
    } else {
        let init = s.drop_last();
        let before = split(init, c);
        let all = split(s, c);
        splitting_loses_nothing(init, c, k);
        splitting_loses_nothing(init, c, before.len() - 1);
        if s.last() == c {
            assert(all.drop_last() =~= before);
            assert(joined_with(all, seq![c]) =~= s);
            if 0 <= k < all.len() {
                if k == before.len() {
                    assert(!all[k].contains(c));
                } else {
                    assert(all[k] == before[k]);
                }
            }
        } else {
            let own = before.last().push(s.last());
            assert(all.last() == own);
            assert(all.drop_last() =~= before.drop_last());
            if before.len() == 1 {
                assert(joined_with(before, seq![c]) == before[0]);
                assert(joined_with(all, seq![c]) == all[0]);
                assert(all[0] =~= s);
            } else {
                assert(joined_with(all, seq![c]) =~= joined_with(before, seq![c]).push(s.last()));
                assert(joined_with(all, seq![c]) =~= s);
            }
            if 0 <= k < all.len() {
                if k == before.len() - 1 {
                    assert(!before[k].contains(c));
                    if own.contains(c) {
                        let i = choose|i: int| 0 <= i < own.len() && own[i] == c;
                        assert(i < before.last().len());
                        assert(before.last()[i] == c);
                    }
                } else {
                    assert(all[k] == before[k]);
                }
            }
        }
    }
}

/// A text is what stands before the first occurrence of a character, the character, and the rest.
pub proof fn texts_are_cut_at_the_first(s: Seq<char>, c: char)
    ensures
        !before_first(s, c).contains(c),
        s.contains(c) ==> s == before_first(s, c) + seq![c] + after_first(s, c),
        !s.contains(c) ==> before_first(s, c) == s,
    decreases s.len(),
{
    if s.len() > 0 && s[0] != c {
        let rest = s.skip(1);
        texts_are_cut_at_the_first(rest, c);
        let before = before_first(rest, c);
        let own = before_first(s, c);
        assert(own == seq![s[0]] + before);
        if own.contains(c) {
            let i = choose|i: int| 0 <= i < own.len() && own[i] == c;
            assert(before[i - 1] == c);
        }
        if s.contains(c) {
            let i = choose|i: int| 0 <= i < s.len() && s[i] == c;
            assert(rest[i - 1] == c);
            assert(after_first(s, c) =~= after_first(rest, c));
            assert(s =~= seq![s[0]] + rest);
            assert(s =~= own + seq![c] + after_first(s, c));
        } else {
            if rest.contains(c) {
                let i = choose|i: int| 0 <= i < rest.len() && rest[i] == c;
                assert(s[i + 1] == c);
            }
            assert(own =~= s);
        }
    } else if s.len() > 0 {
        assert(before_first(s, c) =~= Seq::<char>::empty());
        assert(s.contains(s[0]));
        assert(s =~= before_first(s, c) + seq![c] + after_first(s, c));
    } else {
        assert(before_first(s, c) =~= s);
    }
}

/// A trimmed text is the text without white space around it: what was taken off is white space, and
/// what is left neither begins nor ends with any.
pub proof fn only_white_space_is_trimmed(s: &str, r: String) -> (cut: (int, int))
    requires
        call_ensures(trim, (s,), r),
    ensures
        0 <= cut.0 <= cut.1 <= s@.len(),
        r@ == s@.subrange(cut.0, cut.1),
        forall|i: int| 0 <= i < cut.0 ==> is_space(#[trigger] s@[i]),
        forall|i: int| cut.1 <= i < s@.len() ==> is_space(#[trigger] s@[i]),
        r@.len() > 0 ==> !is_space(r@[0]) && !is_space(r@.last()),
{
    let a = lemma_start(s@);
    let rest = trimmed_start(s@);
    let b = lemma_end(rest);
    assert(rest =~= s@.skip(a));
    assert(r@ =~= s@.subrange(a, a + b));
    assert forall|i: int| a + b <= i < s@.len() implies is_space(#[trigger] s@[i]) by {
        assert(rest[i - a] == s@[i]);
    }
    if r@.len() > 0 {
        assert(r@[0] == rest[0]);
    }
    (a, a + b)
}

proof fn lemma_start(s: Seq<char>) -> (a: int)
    ensures
        0 <= a <= s.len(),
        trimmed_start(s) == s.skip(a),
        forall|i: int| 0 <= i < a ==> is_space(#[trigger] s[i]),
        trimmed_start(s).len() > 0 ==> !is_space(trimmed_start(s)[0]),
    decreases s.len(),
{
    if s.len() > 0 && is_space(s[0]) {
        let rest = s.skip(1);
        let a = lemma_start(rest);
        assert(rest.skip(a) =~= s.skip(a + 1));
        assert forall|i: int| 0 <= i < a + 1 implies is_space(#[trigger] s[i]) by {
            if i > 0 {
                assert(rest[i - 1] == s[i]);
            }
        }
        a + 1
    } else {
        assert(s.skip(0) =~= s);
        0
    }
}

proof fn lemma_end(s: Seq<char>) -> (b: int)
    ensures
        0 <= b <= s.len(),
        trimmed_end(s) == s.take(b),
        forall|i: int| b <= i < s.len() ==> is_space(#[trigger] s[i]),
        trimmed_end(s).len() > 0 ==> !is_space(trimmed_end(s).last()),
    decreases s.len(),
{
    if s.len() > 0 && is_space(s.last()) {
        let init = s.drop_last();
        let b = lemma_end(init);
        assert(init.take(b) =~= s.take(b));
        assert forall|i: int| b <= i < s.len() implies is_space(#[trigger] s[i]) by {
            if i < init.len() {
                assert(init[i] == s[i]);
            }
        }
        b
    } else {
        assert(s.take(s.len() as int) =~= s);
        s.len() as int
    }
}

/// Texts are in the order of their first different characters; a text comes before every longer one
/// that begins with it.
pub proof fn first_differences_decide_the_order(a: Seq<char>, b: Seq<char>, k: int)
    requires
        0 <= k <= a.len(),
        k <= b.len(),
        a.take(k) == b.take(k),
        k == a.len() || k == b.len() || a[k] != b[k],
    ensures
        precedes(a, b) <==> (k < b.len() && (k == a.len() || (a[k] as int) < (b[k] as int))),
    decreases k,
{
    if k > 0 {
        assert(a.take(k)[0] == a[0] && b.take(k)[0] == b[0]);
        let x = a.skip(1);
        let y = b.skip(1);
        assert(x.take(k - 1) =~= y.take(k - 1)) by {
            assert forall|i: int| 0 <= i < k - 1 implies x[i] == y[i] by {
                assert(a.take(k)[i + 1] == a[i + 1]);
                assert(b.take(k)[i + 1] == b[i + 1]);
                assert(x[i] == a[i + 1] && y[i] == b[i + 1]);
            }
        }
        first_differences_decide_the_order(x, y, k - 1);
    }
}

/// Each byte is written as its two digits, the high one first.
pub proof fn bytes_are_written_as_two_digits(bytes: Seq<u8>, byte: u8)
    ensures
        hex(Seq::<u8>::empty()).len() == 0,
        hex(bytes.push(byte)) == hex(bytes) + seq![
            "0123456789abcdef"@[byte as int / 16],
            "0123456789abcdef"@[byte as int % 16],
        ],
{
    let all = bytes.push(byte);
    assert(all.drop_last() =~= bytes);
    reveal_strlit("0123456789abcdef");
    lemma_digit(byte / 16);
    lemma_digit(byte % 16);
    assert(hex(all) =~= hex(bytes) + seq![
        "0123456789abcdef"@[byte as int / 16],
        "0123456789abcdef"@[byte as int % 16],
    ]);
}

proof fn lemma_digit(value: u8)
    requires
        value < 16,
    ensures
        hex_digit(value) == "0123456789abcdef"@[value as int],
{
    reveal_strlit("0123456789abcdef");
    let digits = "0123456789abcdef"@;
    assert(digits[0] == '0' && digits[1] == '1' && digits[2] == '2' && digits[3] == '3' && digits[4]
        == '4' && digits[5] == '5' && digits[6] == '6' && digits[7] == '7' && digits[8] == '8'
        && digits[9] == '9' && digits[10] == 'a' && digits[11] == 'b' && digits[12] == 'c'
        && digits[13] == 'd' && digits[14] == 'e' && digits[15] == 'f');
    if value == 0 {} else if value == 1 {} else if value == 2 {} else if value == 3 {} else if value
        == 4 {} else if value == 5 {} else if value == 6 {} else if value == 7 {} else if value
        == 8 {} else if value == 9 {} else if value == 10 {} else if value == 11 {} else if value
        == 12 {} else if value == 13 {} else if value == 14 {} else {
        assert(value == 15);
    }
}

/// Lower case changes capital letters of ASCII, each to its small one, and nothing else.
pub proof fn only_capital_letters_are_lowered(s: &str, r: String, i: int)
    requires
        call_ensures(lowercase, (s,), r),
    ensures
        r@.len() == s@.len(),
        0 <= i < s@.len() ==> if 65 <= s@[i] as u32 <= 90 {
            r@[i] as u32 == s@[i] as u32 + 32
        } else {
            r@[i] == s@[i]
        },
{
}

/// The last place of a character is where it stands and stands no more behind it.
pub proof fn last_places_have_none_behind(s: Seq<char>, c: char)
    ensures
        match last_place(s, c) {
            Some(k) => 0 <= k < s.len() && s[k] == c && forall|i: int|
                k < i < s.len() ==> #[trigger] s[i] != c,
            None => !s.contains(c),
        },
    decreases s.len(),
{
    if s.len() > 0 {
        let init = s.drop_last();
        last_places_have_none_behind(init, c);
        assert forall|i: int| 0 <= i < init.len() implies init[i] == #[trigger] s[i] by {}
        if last_place(s, c) is None && s.contains(c) {
            let i = choose|i: int| 0 <= i < s.len() && s[i] == c;
            assert(init[i] == c);
        }
    }
}

/// Joined texts grow by the separator and the next text.
pub proof fn joined_texts_are_separated(list: Seq<Seq<char>>, separator: Seq<char>, text: Seq<char>)
    ensures
        joined_with(Seq::<Seq<char>>::empty(), separator).len() == 0,
        list.len() == 0 ==> joined_with(list.push(text), separator) == text,
        list.len() > 0 ==> joined_with(list.push(text), separator) == joined_with(list, separator)
            + separator + text,
{
    assert(list.push(text).drop_last() =~= list);
}

/// A moment later is the sum, and there is none behind the end of the clock.
pub proof fn moments_add_up(now: u128, duration: u128, r: Option<u128>)
    requires
        call_ensures(checked_instant_after, (now, duration), r),
    ensures
        r matches Some(until) ==> until == now + duration,
        r is Some <==> now + duration <= 9_223_372_036_854_775_807_999_999_999,
{
}

} // verus!
