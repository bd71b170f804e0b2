//! What holds of the texts that the library makes and takes apart.

use vstd::prelude::*;

use crate::text::{
    all_digits, decimal, digits_value, hex, is_alnum, is_digit, is_graphic, is_white, join, lacks,
    lemma_find_unique, lemma_join_split, lemma_split_one, lemma_split_parts, lowered, number_of,
    split, trim_end, trim_start, trimmed, without_plus, word_len, words, zero_padded, zeros,
};

verus! {

/// The value of a digit.
pub open spec fn digit_at(s: Seq<char>, i: int) -> int {
    s[i] as int - 48
}

/// A number in decimal is made of digits, with no zero in front, and reads as the number.
pub proof fn law_decimal(n: nat)
    ensures
        all_digits(decimal(n)),
        forall|i: int| 0 <= i < decimal(n).len() ==> 0 <= #[trigger] digit_at(decimal(n), i) <= 9,
        digits_value(decimal(n)) == n,
        n > 0 ==> decimal(n)[0] != '0',
        n < 10 ==> decimal(n).len() == 1 && digit_at(decimal(n), 0) == n,
        n >= 10 ==> decimal(n).len() > 1 && digit_at(decimal(n), decimal(n).len() - 1) == n % 10
            && decimal(n).drop_last() == decimal(n / 10),
    decreases n,
{
    reveal_with_fuel(digits_value, 2);
    let s = decimal(n);
    if n < 10 {
        assert(s.drop_last() =~= Seq::empty());
    } else {
        law_decimal(n / 10);
        assert(s.drop_last() =~= decimal(n / 10));
        assert(s[0] == decimal(n / 10)[0]);
        assert forall|i: int| 0 <= i < s.len() implies 0 <= #[trigger] digit_at(s, i) <= 9 by {
            if i < s.len() - 1 {
                assert(digit_at(s, i) == digit_at(decimal(n / 10), i));
            }
        }
        assert forall|i: int| 0 <= i < s.len() implies crate::text::is_digit(s[i]) by {
            if i < s.len() - 1 {
                assert(s[i] == decimal(n / 10)[i]);
            }
        }
    }
}

/// A number with zeros in front has the width asked for, where it fits, and its digits are
/// those of the number.
pub proof fn law_zero_padded(n: nat)
    ensures
        n < 100 ==> zero_padded(n, 2) == seq![(48 + n / 10) as char, (48 + n % 10) as char],
        n < 1000 ==> zero_padded(n, 3) == seq![
            (48 + n / 100) as char,
            (48 + n / 10 % 10) as char,
            (48 + n % 10) as char,
        ],
        n < 10000 ==> zero_padded(n, 4) == seq![
            (48 + n / 1000) as char,
            (48 + n / 100 % 10) as char,
            (48 + n / 10 % 10) as char,
            (48 + n % 10) as char,
        ],
        n >= 10000 ==> zero_padded(n, 4) == decimal(n) && decimal(n).len() > 4,
        digits_value(zero_padded(n, 4)) == n,
{
    reveal_with_fuel(decimal, 6);
    law_decimal(n);
    assert(zeros(0) =~= Seq::empty());
    assert(zeros(1) =~= seq!['0']);
    assert(zeros(2) =~= seq!['0', '0']);
    assert(zeros(3) =~= seq!['0', '0', '0']);
    if n < 100 {
        assert(zero_padded(n, 2) =~= seq![(48 + n / 10) as char, (48 + n % 10) as char]);
    }
    if n < 1000 {
        assert(zero_padded(n, 3) =~= seq![
            (48 + n / 100) as char,
            (48 + n / 10 % 10) as char,
            (48 + n % 10) as char,
        ]);
    }
    if n < 10000 {
        assert(zero_padded(n, 4) =~= seq![
            (48 + n / 1000) as char,
            (48 + n / 100 % 10) as char,
            (48 + n / 10 % 10) as char,
            (48 + n % 10) as char,
        ]);
    } else {
        law_decimal(n / 10);
        law_decimal(n / 100);
        law_decimal(n / 1000);
        law_decimal(n / 10000);
        assert(n / 10 / 10 == n / 100 && n / 100 / 10 == n / 1000 && n / 1000 / 10 == n / 10000);
        assert(decimal(n).len() > 4);
        assert(zeros(4 - decimal(n).len()) =~= Seq::empty());
        assert(zero_padded(n, 4) =~= decimal(n));
    }
    lemma_zeros_count_nothing(4 - decimal(n).len(), decimal(n));
}

proof fn lemma_zeros_count_nothing(k: int, s: Seq<char>)
    ensures
        digits_value(zeros(k) + s) == digits_value(s),
    decreases s.len(), k,
{
    if s.len() > 0 {
        lemma_zeros_count_nothing(k, s.drop_last());
        assert((zeros(k) + s).drop_last() =~= zeros(k) + s.drop_last());
    } else if k > 0 {
        lemma_zeros_count_nothing(k - 1, s);
        assert((zeros(k) + s).drop_last() =~= zeros(k - 1) + s);
        assert((zeros(k) + s).last() == '0');
    } else {
        assert(zeros(k) + s =~= s);
    }
}

/// Trimming takes off white space at both ends, all of it and nothing else.
pub proof fn law_trimmed(s: Seq<char>)
    ensures
        exists|i: int, j: int|
            #![trigger s.subrange(i, j)]
            0 <= i <= j <= s.len() && trimmed(s) == s.subrange(i, j) && (forall|k: int|
                0 <= k < i || j <= k < s.len() ==> is_white(#[trigger] s[k])),
        trimmed(s).len() > 0 ==> !is_white(trimmed(s)[0]) && !is_white(trimmed(s).last()),
{
    let i = lemma_start(s);
    let t = trim_start(s);
    let n = lemma_end(t);
    assert(t.take(n) =~= s.subrange(i, i + n));
    assert forall|k: int| 0 <= k < i || i + n <= k < s.len() implies is_white(
        #[trigger] s[k],
    ) by {
        if k >= i + n {
            assert(s[k] == t[k - i]);
        }
    }
    if trimmed(s).len() > 0 {
        assert(trimmed(s)[0] == t[0]);
    }
}

proof fn lemma_start(s: Seq<char>) -> (i: int)
    ensures
        0 <= i <= s.len(),
        trim_start(s) == s.skip(i),
        forall|k: int| 0 <= k < i ==> is_white(#[trigger] s[k]),
        trim_start(s).len() > 0 ==> !is_white(trim_start(s)[0]),
    decreases s.len(),
{
    if s.len() > 0 && is_white(s[0]) {
        let t = s.drop_first();
        let j = lemma_start(t);
        assert(t.skip(j) =~= s.skip(j + 1));
        assert forall|k: int| 0 <= k < j + 1 implies is_white(#[trigger] s[k]) by {
            if k > 0 {
                assert(s[k] == t[k - 1]);
            }
        }
        j + 1
    } else {
        assert(s.skip(0) =~= s);
        0
    }
}

proof fn lemma_end(s: Seq<char>) -> (n: int)
    ensures
        0 <= n <= s.len(),
        trim_end(s) == s.take(n),
        forall|k: int| n <= k < s.len() ==> is_white(#[trigger] s[k]),
        trim_end(s).len() > 0 ==> !is_white(trim_end(s).last()),
    decreases s.len(),
{
    if s.len() > 0 && is_white(s.last()) {
        let t = s.drop_last();
        let n = lemma_end(t);
        assert(t.take(n) =~= s.take(n));
        assert forall|k: int| n <= k < s.len() implies is_white(#[trigger] s[k]) by {
            if k < s.len() - 1 {
                assert(s[k] == t[k]);
            }
        }
        n
    } else {
        assert(s.take(s.len() as int) =~= s);
        s.len() as int
    }
}

/// White space is what Unicode calls so.
pub proof fn law_white(c: char)
    ensures
        is_white(c) <==> c == ' ' || c == '\t' || c == '\n' || c == '\r' || c == '\u{b}' || c
            == '\u{c}' || c == '\u{85}' || c == '\u{a0}' || c == '\u{1680}' || ('\u{2000}' <= c
            && c <= '\u{200a}') || c == '\u{2028}' || c == '\u{2029}' || c == '\u{202f}' || c
            == '\u{205f}' || c == '\u{3000}',
{
}

/// Small letters take the place of capital ones, and nothing else changes.
pub proof fn law_lowered(s: Seq<char>, i: int)
    requires
        0 <= i < s.len(),
    ensures
        lowered(s).len() == s.len(),
        'A' <= s[i] && s[i] <= 'Z' ==> lowered(s)[i] as int == s[i] as int - 'A' as int
            + 'a' as int,
        s[i] < 'A' || 'Z' < s[i] ==> lowered(s)[i] == s[i],
{
}

/// A hexadecimal digit, in capital letters, by its value.
pub open spec fn capital_digit(c: char, d: int) -> bool {
    0 <= d < 10 && c as int == 48 + d || 10 <= d < 16 && c as int == 65 + d - 10
}

/// A number in hexadecimal has at least the digits asked for, all in capital letters, and
/// the last of them is what is left of the number by sixteen.
pub proof fn law_hex(n: nat, width: nat)
    ensures
        hex(n, width).len() >= width,
        n > 0 || width > 0 ==> hex(n, width).len() > 0 && capital_digit(
            hex(n, width).last(),
            n as int % 16,
        ) && hex(n, width).drop_last() == hex(n / 16, (if width == 0 { 0 } else { width - 1 }) as nat),
        n == 0 && width == 0 ==> hex(n, width).len() == 0,
    decreases width,
{
    if n > 0 || width > 0 {
        let w: nat = (if width == 0 { 0 } else { width - 1 }) as nat;
        if width > 0 {
            law_hex(n / 16, w);
        }
        assert(hex(n, width).drop_last() =~= hex(n / 16, w));
    }
}

/// Whether a string has white space at none of its places.
pub open spec fn unbroken(s: Seq<char>) -> bool {
    forall|i: int| 0 <= i < s.len() ==> !is_white(#[trigger] s[i])
}

/// Words are what stands between white space: there is none in nothing, white space before
/// a string adds none, and a stretch without white space up to the next one is one.
pub proof fn law_words(w: Seq<char>, rest: Seq<char>, c: char)
    ensures
        words(Seq::empty()).len() == 0,
        is_white(c) ==> words(seq![c] + rest) == words(rest),
        w.len() > 0 && unbroken(w) && (rest.len() == 0 || is_white(rest[0])) ==> words(w + rest)
            == seq![w] + words(rest),
{
    let s = seq![c] + rest;
    assert(s.drop_first() =~= rest);
    if w.len() > 0 && unbroken(w) && (rest.len() == 0 || is_white(rest[0])) {
        let t = w + rest;
        assert(t[0] == w[0]);
        lemma_word_len(w, rest);
        assert(t.take(w.len() as int) =~= w);
        assert(t.skip(w.len() as int) =~= rest);
    }
}

proof fn lemma_word_len(w: Seq<char>, rest: Seq<char>)
    requires
        unbroken(w),
        rest.len() == 0 || is_white(rest[0]),
    ensures
        word_len(w + rest) == w.len(),
    decreases w.len(),
{
    if w.len() > 0 {
        let v = w.drop_first();
        assert((w + rest).drop_first() =~= v + rest);
        assert((w + rest)[0] == w[0]);
        assert forall|i: int| 0 <= i < v.len() implies !is_white(#[trigger] v[i]) by {
            assert(v[i] == w[i + 1]);
        }
        lemma_word_len(v, rest);
    } else {
        assert(w + rest =~= rest);
    }
}

/// Words are not empty and hold no white space.
pub proof fn law_words_are_words(s: Seq<char>, i: int)
    requires
        0 <= i < words(s).len(),
    ensures
        words(s)[i].len() > 0,
        unbroken(words(s)[i]),
    decreases s.len(),
{
    let t = trim_start(s);
    let j = lemma_start(s);
    lemma_word(t);
    if i > 0 {
        law_words_are_words(t.skip(word_len(t)), i - 1);
    }
}

proof fn lemma_word(s: Seq<char>)
    ensures
        0 <= word_len(s) <= s.len(),
        unbroken(s.take(word_len(s))),
        s.len() > 0 && !is_white(s[0]) ==> word_len(s) > 0,
    decreases s.len(),
{
    if s.len() > 0 && !is_white(s[0]) {
        let v = s.drop_first();
        lemma_word(v);
        let w = s.take(word_len(s));
        assert forall|i: int| 0 <= i < w.len() implies !is_white(#[trigger] w[i]) by {
            if i > 0 {
                assert(w[i] == v.take(word_len(v))[i - 1]);
            }
        }
    }
}

/// A string is its parts with the separator between them, and no part holds the separator.
/// Parts that do not hold it come out again.
pub proof fn law_split(s: Seq<char>, sep: char, a: Seq<char>, b: Seq<char>)
    ensures
        join(split(s, sep), seq![sep]) == s,
        split(s, sep).len() > 0,
        forall|i: int| 0 <= i < split(s, sep).len() ==> lacks(#[trigger] split(s, sep)[i], sep),
        lacks(a, sep) ==> split(a, sep) == seq![a],
        lacks(a, sep) ==> split(a + seq![sep] + b, sep) == seq![a] + split(b, sep),
{
    lemma_join_split(s, sep);
    lemma_split_parts(s, sep);
    if lacks(a, sep) {
        lemma_split_one(a, sep);
        let t = a + seq![sep] + b;
        let n = a.len() as int;
        assert(t[n] == sep);
        assert forall|i: int| 0 <= i < n implies t[i] != sep by {
            assert(t[i] == a[i]);
        }
        lemma_find_unique(t, sep, n);
        assert(t.take(n) =~= a);
        assert(t.skip(n + 1) =~= b);
    }
}

/// Joining puts the separator between strings, and nowhere else.
pub proof fn law_join(parts: Seq<Seq<char>>, last: Seq<char>, sep: Seq<char>)
    ensures
        join(seq![], sep).len() == 0,
        join(seq![last], sep) == last,
        parts.len() > 0 ==> join(parts.push(last), sep) == join(parts, sep) + sep + last,
    decreases parts.len(),
{
    if parts.len() > 0 {
        let more = parts.push(last);
        assert(more.drop_first() =~= parts.drop_first().push(last));
        law_join(parts.drop_first(), last, sep);
        if parts.len() == 1 {
            assert(more.drop_first() =~= seq![last]);
        } else {
            let p = parts[0] + sep;
            let q = join(parts.drop_first(), sep);
            assert(p + (q + sep + last) =~= p + q + sep + last);
        }
    }
}

/// A number is read from decimal digits, with a plus sign before them at most, if it fits
/// the machine word: each digit makes ten times what is before it and the digit.
pub proof fn law_number_of(s: Seq<char>, c: char)
    ensures
        number_of(Seq::empty()) is None,
        s.len() > 0 && s[0] != '+' ==> number_of(seq!['+'] + s) == number_of(s),
        s.len() > 0 && (c < '0' || '9' < c) ==> number_of(s.push(c)) is None,
        s.len() == 0 && '0' <= c && c <= '9' ==> number_of(s.push(c)) == Some(
            (c as int - '0' as int) as nat,
        ),
        number_of(s) matches Some(n) ==> ('0' <= c && c <= '9' ==> number_of(s.push(c)) == if n * 10
            + (c as int - '0' as int) <= usize::MAX {
            Some((n * 10 + (c as int - '0' as int)) as nat)
        } else {
            None
        }),
{
    let t = s.push(c);
    assert((seq!['+'] + s).drop_first() =~= s);
    if s.len() > 0 {
        let d = without_plus(s);
        assert(without_plus(t) =~= d.push(c));
        assert(d.push(c).drop_last() =~= d);
        assert(d.push(c)[d.len() as int] == c);
        if all_digits(d) && is_digit(c) {
            assert forall|i: int| 0 <= i < d.push(c).len() implies is_digit(d.push(c)[i]) by {
                if i < d.len() {
                    assert(is_digit(d[i]));
                }
            }
        }
    } else {
        reveal_with_fuel(digits_value, 2);
        assert(t.drop_last() =~= Seq::empty());
        assert(without_plus(t) =~= t || c == '+');
    }
}

/// Letters and digits of ASCII, and the characters of it that can be printed.
pub proof fn law_characters(c: char)
    ensures
        is_alnum(c) <==> 48 <= c as int <= 57 || 65 <= c as int <= 90 || 97 <= c as int <= 122,
        is_graphic(c) <==> 33 <= c as int <= 126,
        is_digit(c) <==> 48 <= c as int <= 57,
{
}

} // verus!
