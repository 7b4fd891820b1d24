//! The written form of a coordinate.
//!
//! A numeral is what a log line holds in place of a number: an optional sign,
//! then either one of the words `inf`, `infinity` and `nan` in any mix of
//! upper and lower case, or decimal digits with at most one point among them
//! and an optional exponent. This is the form in which the standard library
//! reads a double-precision number from text.

use vstd::prelude::*;
use vstd::string::*;
use vstd::slice::slice_subrange;

verus! {

/// Whether `c` is one of the ten decimal digits.
pub open spec fn is_digit(c: char) -> bool {
    '0' <= c <= '9'
}

/// Whether `c` is a plus or a minus sign.
pub open spec fn is_sign(c: char) -> bool {
    c == '+' || c == '-'
}

/// Whether `c` is the lower-case letter `letter` or its upper-case form.
pub open spec fn is_letter(c: char, letter: char) -> bool {
    c == letter || ('a' <= letter <= 'z' && c as int + 32 == letter as int)
}

/// Whether `s` holds digits only. The empty sequence does.
pub open spec fn all_digits(s: Seq<char>) -> bool {
    forall|i: int| 0 <= i < s.len() ==> is_digit(#[trigger] s[i])
}

/// Whether `s` spells `word`, upper and lower case taken as one.
pub open spec fn spells(s: Seq<char>, word: Seq<char>) -> bool {
    &&& s.len() == word.len()
    &&& forall|i: int| 0 <= i < s.len() ==> is_letter(#[trigger] s[i], word[i])
}

/// Whether `s` is one of the words that stand for a value that is no finite
/// number.
pub open spec fn is_special(s: Seq<char>) -> bool {
    spells(s, "inf"@) || spells(s, "infinity"@) || spells(s, "nan"@)
}

/// Whether `s` is a run of digits, or two runs of digits with a point
/// between them of which one may be empty.
pub open spec fn is_decimal(s: Seq<char>) -> bool {
    ||| s.len() > 0 && all_digits(s)
    ||| exists|k: int|
        0 <= k < s.len() && s.len() > 1 && #[trigger] s[k] == '.' && all_digits(s.take(k))
            && all_digits(s.skip(k + 1))
}

/// Whether `s` is an exponent: the letter `e`, an optional sign, and at
/// least one digit.
pub open spec fn is_exponent(s: Seq<char>) -> bool {
    &&& s.len() >= 2
    &&& is_letter(s[0], 'e')
    &&& {
        let digits = if is_sign(s[1]) {
            s.skip(2)
        } else {
            s.skip(1)
        };
        digits.len() > 0 && all_digits(digits)
    }
}

/// Whether `s` is a decimal, alone or followed by an exponent.
pub open spec fn is_number(s: Seq<char>) -> bool {
    ||| is_decimal(s)
    ||| exists|k: int|
        0 < k < s.len() && #[trigger] is_decimal(s.take(k)) && is_exponent(s.skip(k))
}

/// What is left of `s` without its sign, if it begins with one.
pub open spec fn unsigned(s: Seq<char>) -> Seq<char> {
    if s.len() > 0 && is_sign(s[0]) {
        s.skip(1)
    } else {
        s
    }
}

/// Whether `s` is a numeral.
pub open spec fn is_numeral(s: Seq<char>) -> bool {
    is_special(unsigned(s)) || is_number(unsigned(s))
}

/// A decimal holds digits and points only.
pub proof fn lemma_decimal_chars(s: Seq<char>)
    requires
        is_decimal(s),
    ensures
        s.len() > 0,
        forall|i: int| 0 <= i < s.len() ==> is_digit(#[trigger] s[i]) || s[i] == '.',
{
    if !(s.len() > 0 && all_digits(s)) {
        let k = choose|k: int|
            0 <= k < s.len() && s.len() > 1 && #[trigger] s[k] == '.' && all_digits(s.take(k))
                && all_digits(s.skip(k + 1));
        assert forall|i: int| 0 <= i < s.len() implies is_digit(#[trigger] s[i]) || s[i] == '.' by {
            if i < k {
                assert(s.take(k)[i] == s[i]);
            } else if i > k {
                assert(s.skip(k + 1)[i - k - 1] == s[i]);
            }
        }
    }
}

/// Where `at` is the first place of `s` that holds no digit, `s` is a
/// decimal exactly if that place holds a point, only digits follow it, and
/// there is a digit on one side of it.
pub proof fn lemma_decimal_split(s: Seq<char>, at: int)
    requires
        0 <= at < s.len(),
        forall|i: int| 0 <= i < at ==> is_digit(#[trigger] s[i]),
        !is_digit(s[at]),
    ensures
        is_decimal(s) <==> (s[at] == '.' && all_digits(s.skip(at + 1)) && s.len() > 1),
{
    if is_decimal(s) {
        let k = choose|k: int|
            0 <= k < s.len() && s.len() > 1 && #[trigger] s[k] == '.' && all_digits(s.take(k))
                && all_digits(s.skip(k + 1));
        if at < k {
            assert(s.take(k)[at] == s[at]);
        }
        assert(k == at);
    }
    if s[at] == '.' && all_digits(s.skip(at + 1)) && s.len() > 1 {
        assert forall|i: int| 0 <= i < s.take(at).len() implies is_digit(#[trigger] s.take(at)[i]) by {
            assert(s.take(at)[i] == s[i]);
        }
    }
}

/// Where `at` is the first place of `s` that holds neither a digit nor a
/// point, `s` is a number exactly if a decimal stands before that place and
/// an exponent begins at it.
pub proof fn lemma_number_split(s: Seq<char>, at: int)
    requires
        0 <= at < s.len(),
        forall|i: int| 0 <= i < at ==> is_digit(#[trigger] s[i]) || s[i] == '.',
        !is_digit(s[at]),
        s[at] != '.',
    ensures
        is_number(s) <==> (is_decimal(s.take(at)) && is_exponent(s.skip(at))),
{
    if is_decimal(s) {
        lemma_decimal_chars(s);
    }
    if is_number(s) {
        let k = choose|k: int|
            0 < k < s.len() && #[trigger] is_decimal(s.take(k)) && is_exponent(s.skip(k));
        lemma_decimal_chars(s.take(k));
        if at < k {
            assert(s.take(k)[at] == s[at]);
        }
        if k < at {
            assert(s.skip(k)[0] == s[k]);
            assert(is_digit(s[k]) || s[k] == '.');
        }
        assert(k == at);
    }
    if is_decimal(s.take(at)) && is_exponent(s.skip(at)) {
        lemma_decimal_chars(s.take(at));
        assert(0 < at);
    }
}

/// A number without an exponent mark is a decimal.
pub proof fn lemma_number_plain(s: Seq<char>)
    requires
        forall|i: int| 0 <= i < s.len() ==> is_digit(#[trigger] s[i]) || s[i] == '.',
    ensures
        is_number(s) <==> is_decimal(s),
{
    if is_number(s) && !is_decimal(s) {
        let k = choose|k: int|
            0 < k < s.len() && #[trigger] is_decimal(s.take(k)) && is_exponent(s.skip(k));
        assert(s.skip(k)[0] == s[k]);
        assert(is_digit(s[k]) || s[k] == '.');
    }
}

/// Whether `c` is a decimal digit.
pub fn char_is_digit(c: char) -> (yes: bool)
    ensures
        yes == is_digit(c),
{
    '0' <= c && c <= '9'
}

/// Whether `c` is a plus or a minus sign.
pub fn char_is_sign(c: char) -> (yes: bool)
    ensures
        yes == is_sign(c),
{
    c == '+' || c == '-'
}

/// Whether `c` is the lower-case letter `letter` or its upper-case form.
pub fn char_is_letter(c: char, letter: char) -> (yes: bool)
    ensures
        yes == is_letter(c, letter),
{
    let n: u32 = c as u32;
    let m: u32 = letter as u32;
    c == letter || ('a' <= letter && letter <= 'z' && n + 32 == m)
}

/// The first place at or after `from` at which `s` holds no digit, or the
/// length of `s`.
fn digits_end(s: &[char], from: usize) -> (end: usize)
    requires
        from <= s.len(),
    ensures
        from <= end <= s.len(),
        forall|i: int| from <= i < end ==> is_digit(#[trigger] s@[i]),
        end < s.len() ==> !is_digit(s@[end as int]),
{
    let mut end: usize = from;
    while end < s.len() && char_is_digit(s[end])
        invariant
            from <= end <= s.len(),
            forall|i: int| from <= i < end ==> is_digit(#[trigger] s@[i]),
        decreases s.len() - end,
    {
        end = end + 1;
    }
    end
}

/// Whether `s` spells `word`, upper and lower case taken as one.
pub fn scan_word(s: &[char], word: &str) -> (yes: bool)
    ensures
        yes == spells(s@, word@),
{
    if s.len() != word.unicode_len() {
        return false;
    }
    let mut i: usize = 0;
    while i < s.len()
        invariant
            i <= s.len(),
            s@.len() == word@.len(),
            forall|j: int| 0 <= j < i ==> is_letter(#[trigger] s@[j], word@[j]),
        decreases s.len() - i,
    {
        if !char_is_letter(s[i], word.get_char(i)) {
            return false;
        }
        i = i + 1;
    }
    true
}

/// Whether `s` is one of the words for a value that is no finite number.
pub fn scan_special(s: &[char]) -> (yes: bool)
    ensures
        yes == is_special(s@),
{
    scan_word(s, "inf") || scan_word(s, "infinity") || scan_word(s, "nan")
}

/// Whether `s` is a decimal.
pub fn scan_decimal(s: &[char]) -> (yes: bool)
    ensures
        yes == is_decimal(s@),
{
    let point = digits_end(s, 0);
    if point == s.len() {
        proof {
            if is_decimal(s@) && !(s@.len() > 0 && all_digits(s@)) {
                let k = choose|k: int|
                    0 <= k < s@.len() && s@.len() > 1 && #[trigger] s@[k] == '.' && all_digits(
                        s@.take(k),
                    ) && all_digits(s@.skip(k + 1));
                assert(is_digit(s@[k]));
            }
        }
        return s.len() > 0;
    }
    proof {
        lemma_decimal_split(s@, point as int);
    }
    if s[point] != '.' {
        return false;
    }
    let end = digits_end(s, point + 1);
    proof {
        let rest = s@.skip(point as int + 1);
        if end == s.len() {
            assert forall|i: int| 0 <= i < rest.len() implies is_digit(#[trigger] rest[i]) by {
                assert(rest[i] == s@[point as int + 1 + i]);
            }
        } else {
            assert(rest[end as int - point as int - 1] == s@[end as int]);
        }
    }
    end == s.len() && s.len() > 1
}

/// Whether `s` is an exponent.
pub fn scan_exponent(s: &[char]) -> (yes: bool)
    ensures
        yes == is_exponent(s@),
{
    if s.len() < 2 || !char_is_letter(s[0], 'e') {
        return false;
    }
    let first: usize = if char_is_sign(s[1]) {
        2
    } else {
        1
    };
    let end = digits_end(s, first);
    proof {
        let digits = s@.skip(first as int);
        if end == s.len() {
            assert forall|i: int| 0 <= i < digits.len() implies is_digit(#[trigger] digits[i]) by {
                assert(digits[i] == s@[first as int + i]);
            }
        } else {
            assert(digits[end as int - first as int] == s@[end as int]);
        }
    }
    first < s.len() && end == s.len()
}

/// Whether `s` is a number.
pub fn scan_number(s: &[char]) -> (yes: bool)
    ensures
        yes == is_number(s@),
{
    let mut mark: usize = 0;
    while mark < s.len() && (char_is_digit(s[mark]) || s[mark] == '.')
        invariant
            mark <= s.len(),
            forall|i: int| 0 <= i < mark ==> is_digit(#[trigger] s@[i]) || s@[i] == '.',
        decreases s.len() - mark,
    {
        mark = mark + 1;
    }
    if mark == s.len() {
        proof {
            lemma_number_plain(s@);
        }
        return scan_decimal(s);
    }
    proof {
        lemma_number_split(s@, mark as int);
    }
    scan_decimal(slice_subrange(s, 0, mark)) && scan_exponent(slice_subrange(s, mark, s.len()))
}

/// Whether `token` is a numeral.
pub fn scan_numeral(token: &[char]) -> (yes: bool)
    ensures
        yes == is_numeral(token@),
{
    let body = if token.len() > 0 && char_is_sign(token[0]) {
        slice_subrange(token, 1, token.len())
    } else {
        token
    };
    scan_special(body) || scan_number(body)
}

} // verus!
