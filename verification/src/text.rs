//! Reading short ASCII texts: equality of strings, unsigned decimal integers,
//! and the syntax of decimal numbers with a fraction and an exponent.

use vstd::prelude::*;
use vstd::string::*;
use vstd::utf8::*;

verus! {

/// Whether two strings hold the same characters.
pub fn str_eq(a: &str, b: &str) -> (same: bool)
    ensures
        same == (a@ == b@),
{
    let x = a.as_bytes();
    let y = b.as_bytes();
    proof {
        encode_utf8_decode_utf8(a@);
        encode_utf8_decode_utf8(b@);
    }
    if x.len() != y.len() {
        return false;
    }
    let mut i: usize = 0;
    while i < x.len()
        invariant
            i <= x.len(),
            x.len() == y.len(),
            forall|j: int| 0 <= j < i ==> x@[j] == y@[j],
            x@ == encode_utf8(a@),
            y@ == encode_utf8(b@),
        decreases x.len() - i,
    {
        if x[i] != y[i] {
            return false;
        }
        i += 1;
    }
    assert(x@ =~= y@);
    true
}

/// A decimal digit.
pub open spec fn is_digit(c: char) -> bool {
    '0' <= c <= '9'
}

/// The number that a decimal digit stands for.
pub open spec fn digit_value(c: char) -> nat {
    (c as int - '0' as int) as nat
}

/// Every character of `s` is a decimal digit.
pub open spec fn all_digits(s: Seq<char>) -> bool {
    forall|i: int| 0 <= i < s.len() ==> is_digit(#[trigger] s[i])
}

/// The number that a string of decimal digits denotes, most significant digit first.
pub open spec fn decimal_value(s: Seq<char>) -> nat
    decreases s.len(),
{
    if s.len() == 0 {
        0
    } else {
        10 * decimal_value(s.drop_last()) + digit_value(s.last())
    }
}

/// `s` without its leading `+`, if it has one.
pub open spec fn without_plus(s: Seq<char>) -> Seq<char> {
    if s.len() > 0 && s[0] == '+' {
        s.skip(1)
    } else {
        s
    }
}

/// The unsigned 64-bit integer that `s` denotes: an optional `+`, then one or
/// more decimal digits whose value fits. Anything else denotes none.
pub open spec fn parse_u64_spec(s: Seq<char>) -> Option<u64> {
    let digits = without_plus(s);
    if digits.len() > 0 && all_digits(digits) && decimal_value(digits) <= u64::MAX {
        Some(decimal_value(digits) as u64)
    } else {
        None
    }
}

/// Appending digits to a digit string never lowers its value.
pub proof fn lemma_decimal_value_prefix(s: Seq<char>, k: int)
    requires
        0 <= k <= s.len(),
    ensures
        decimal_value(s.take(k)) <= decimal_value(s),
    decreases s.len(),
{
    if k == s.len() {
        assert(s.take(k) =~= s);
    } else {
        assert(s.drop_last().take(k) =~= s.take(k));
        lemma_decimal_value_prefix(s.drop_last(), k);
    }
}

/// The bytes of an ASCII string, one for each character; none for a string
/// that holds any other character.
pub(crate) fn ascii_bytes(s: &str) -> (bytes: Option<&[u8]>)
    ensures
        match bytes {
            Some(b) => {
                &&& is_ascii_chars(s@)
                &&& b@.len() == s@.len()
                &&& forall|i: int| 0 <= i < b@.len() ==> #[trigger] b@[i] as char == s@[i]
            },
            None => !is_ascii_chars(s@),
        },
{
    if s.is_ascii() {
        let b = s.as_bytes();
        proof {
            is_ascii_spec_bytes(s);
            assert forall|i: int| 0 <= i < b@.len() implies #[trigger] b@[i] as char == s@[i] by {
                assert(b@[i] == s@[i] as u8);
                assert('\0' <= s@[i] <= '\u{7f}');
            }
        }
        Some(b)
    } else {
        None
    }
}

/// Reads an unsigned 64-bit integer in decimal notation.
pub fn parse_u64(s: &str) -> (parsed: Option<u64>)
    ensures
        parsed == parse_u64_spec(s@),
{
    let bytes = match ascii_bytes(s) {
        Some(b) => b,
        None => {
            proof {
                let i = choose|i: int| 0 <= i < s@.len() && !('\0' <= #[trigger] s@[i] <= '\u{7f}');
                if s@[0] == '+' {
                    assert(i > 0);
                    assert(s@.skip(1)[i - 1] == s@[i]);
                }
            }
            return None;
        },
    };
    let n: usize = bytes.len();
    let start: usize = if n > 0 && bytes[0] == 43u8 {
        1
    } else {
        0
    };
    let ghost digits = without_plus(s@);
    assert(digits =~= s@.skip(start as int));
    if start == n {
        return None;
    }
    let mut value: u64 = 0;
    let mut i: usize = start;
    while i < n
        invariant
            start <= i <= n,
            n == bytes@.len(),
            n == s@.len(),
            digits == without_plus(s@),
            digits == s@.skip(start as int),
            forall|j: int| 0 <= j < n ==> #[trigger] bytes@[j] as char == s@[j],
            all_digits(digits.take(i - start)),
            value == decimal_value(digits.take(i - start)),
        decreases n - i,
    {
        let b: u8 = bytes[i];
        assert(b as char == s@[i as int]);
        assert(digits[i - start] == s@[i as int]);
        if b < 48u8 || b > 57u8 {
            assert(!is_digit(digits[i - start]));
            return None;
        }
        let ghost longer = digits.take(i - start + 1);
        assert(longer.drop_last() =~= digits.take(i - start));
        assert(longer.last() == digits[i - start]);
        assert(decimal_value(longer) == 10 * value + (b - 48u8));
        let grown: Option<u64> = match value.checked_mul(10) {
            Some(tenfold) => tenfold.checked_add((b - 48u8) as u64),
            None => None,
        };
        match grown {
            Some(v) => {
                value = v;
            },
            None => {
                proof {
                    assert(decimal_value(longer) > u64::MAX);
                    lemma_decimal_value_prefix(digits, i - start + 1);
                }
                return None;
            },
        }
        assert forall|j: int| 0 <= j < longer.len() implies is_digit(#[trigger] longer[j]) by {
            if j < i - start {
                assert(digits.take(i - start)[j] == longer[j]);
            }
        }
        i += 1;
    }
    assert(digits.take(n - start) =~= digits);
    Some(value)
}

/// A sign in front of a number or of an exponent.
pub open spec fn is_sign(c: char) -> bool {
    c == '+' || c == '-'
}

/// Where the run of decimal digits that starts at `from` ends: the first
/// position at or after `from` that holds no digit, or the end of `s`.
pub open spec fn digits_end(s: Seq<char>, from: int) -> int
    decreases s.len() - from,
{
    if 0 <= from < s.len() && is_digit(s[from]) {
        digits_end(s, from + 1)
    } else {
        from
    }
}

/// From `at` to its end, `s` is an exponent: `e` or `E`, an optional sign,
/// and one or more digits.
pub open spec fn is_exponent_at(s: Seq<char>, at: int) -> bool {
    let digits = if at + 1 < s.len() && is_sign(s[at + 1]) {
        at + 2
    } else {
        at + 1
    };
    &&& 0 <= at < s.len()
    &&& (s[at] == 'e' || s[at] == 'E')
    &&& digits < s.len()
    &&& digits_end(s, digits) == s.len()
}

/// From `at` to its end, `s` is a number: digits with at most one decimal
/// point among them, before it or after it or both, and an optional exponent.
pub open spec fn is_number_at(s: Seq<char>, at: int) -> bool {
    let whole_end = digits_end(s, at);
    let has_point = whole_end < s.len() && s[whole_end] == '.';
    let fraction_end = if has_point {
        digits_end(s, whole_end + 1)
    } else {
        whole_end
    };
    let digits = if has_point {
        fraction_end - at - 1
    } else {
        fraction_end - at
    };
    &&& digits >= 1
    &&& (fraction_end == s.len() || is_exponent_at(s, fraction_end))
}

/// An upper-case ASCII letter as its lower-case letter; any other character as itself.
pub open spec fn lower(c: char) -> char {
    if 'A' <= c <= 'Z' {
        ((c as u8) + 32) as char
    } else {
        c
    }
}

/// From `at` to its end, `s` spells `word`, in any mix of letter cases.
pub open spec fn spells(s: Seq<char>, at: int, word: Seq<char>) -> bool {
    &&& s.len() - at == word.len()
    &&& forall|i: int| 0 <= i < word.len() ==> lower(#[trigger] s[at + i]) == word[i]
}

/// From `at` to its end, `s` names one of the values that are no number:
/// `inf`, `infinity` or `nan`.
pub open spec fn is_special_at(s: Seq<char>, at: int) -> bool {
    ||| spells(s, at, seq!['i', 'n', 'f'])
    ||| spells(s, at, seq!['n', 'a', 'n'])
    ||| spells(s, at, seq!['i', 'n', 'f', 'i', 'n', 'i', 't', 'y'])
}

/// `s` is a decimal number as the provider writes prices and volumes: an
/// optional sign, then either a number with an optional fraction and exponent,
/// or one of the names `inf`, `infinity`, `nan`. Nothing may stand before or
/// after it, not even a blank.
pub open spec fn is_decimal_number(s: Seq<char>) -> bool {
    let at: int = if s.len() > 0 && is_sign(s[0]) {
        1
    } else {
        0
    };
    at < s.len() && (is_number_at(s, at) || is_special_at(s, at))
}

/// A run of digits lies inside the string, holds digits only, and stops at
/// the first character that is none.
pub proof fn lemma_digits_end(s: Seq<char>, from: int)
    requires
        0 <= from <= s.len(),
    ensures
        from <= digits_end(s, from) <= s.len(),
        forall|k: int| from <= k < digits_end(s, from) ==> is_digit(#[trigger] s[k]),
        digits_end(s, from) < s.len() ==> !is_digit(s[digits_end(s, from)]),
    decreases s.len() - from,
{
    if from < s.len() && is_digit(s[from]) {
        lemma_digits_end(s, from + 1);
    }
}

/// A decimal number holds ASCII characters only.
pub proof fn lemma_decimal_number_is_ascii(s: Seq<char>)
    requires
        is_decimal_number(s),
    ensures
        is_ascii_chars(s),
{
    let at: int = if s.len() > 0 && is_sign(s[0]) {
        1
    } else {
        0
    };
    if is_number_at(s, at) {
        lemma_digits_end(s, at);
        let whole_end = digits_end(s, at);
        if whole_end < s.len() {
            lemma_digits_end(s, whole_end + 1);
        }
        let has_point = whole_end < s.len() && s[whole_end] == '.';
        let fraction_end = if has_point {
            digits_end(s, whole_end + 1)
        } else {
            whole_end
        };
        if fraction_end < s.len() {
            let digits = if fraction_end + 1 < s.len() && is_sign(s[fraction_end + 1]) {
                fraction_end + 2
            } else {
                fraction_end + 1
            };
            lemma_digits_end(s, digits);
        }
        assert forall|i: int| 0 <= i < s.len() implies '\0' <= #[trigger] s[i] <= '\u{7f}' by {
            if i >= at && i < whole_end {
                assert(is_digit(s[i]));
            } else if has_point && i > whole_end && i < fraction_end {
                assert(is_digit(s[i]));
            } else if i > fraction_end + 1 {
                assert(is_digit(s[i]));
            }
        }
    } else {
        assert forall|i: int| 0 <= i < s.len() implies '\0' <= #[trigger] s[i] <= '\u{7f}' by {
            if i >= at {
                let c = s[at + (i - at)];
                assert(lower(c) == 'i' || lower(c) == 'n' || lower(c) == 'f' || lower(c) == 'a'
                    || lower(c) == 't' || lower(c) == 'y');
            }
        }
    }
}

/// Each byte is the ASCII character at its place in `s`.
pub(crate) open spec fn mirrors(bytes: Seq<u8>, s: Seq<char>) -> bool {
    &&& bytes.len() == s.len()
    &&& forall|i: int| 0 <= i < bytes.len() ==> #[trigger] bytes[i] as char == s[i]
}

/// The end of the run of digits that starts at `from`.
fn scan_digits(bytes: &[u8], from: usize, Ghost(s): Ghost<Seq<char>>) -> (end: usize)
    requires
        mirrors(bytes@, s),
        from <= bytes@.len(),
    ensures
        end == digits_end(s, from as int),
        from <= end <= bytes@.len(),
{
    let mut i: usize = from;
    while i < bytes.len() && 48u8 <= bytes[i] && bytes[i] <= 57u8
        invariant
            mirrors(bytes@, s),
            from <= i <= bytes@.len(),
            digits_end(s, from as int) == digits_end(s, i as int),
        decreases bytes@.len() - i,
    {
        assert(bytes@[i as int] as char == s[i as int]);
        i += 1;
    }
    proof {
        if i < bytes.len() {
            assert(bytes@[i as int] as char == s[i as int]);
        }
    }
    i
}

/// Whether the bytes from `at` on are an exponent.
fn exponent_at(bytes: &[u8], at: usize, Ghost(s): Ghost<Seq<char>>) -> (ok: bool)
    requires
        mirrors(bytes@, s),
        at < bytes@.len(),
    ensures
        ok == is_exponent_at(s, at as int),
{
    let n: usize = bytes.len();
    assert(bytes@[at as int] as char == s[at as int]);
    if bytes[at] != 101u8 && bytes[at] != 69u8 {
        return false;
    }
    let mut digits: usize = at + 1;
    if digits < n {
        assert(bytes@[digits as int] as char == s[digits as int]);
        if bytes[digits] == 43u8 || bytes[digits] == 45u8 {
            digits += 1;
        }
    }
    if digits >= n {
        return false;
    }
    let end: usize = scan_digits(bytes, digits, Ghost(s));
    end == n
}

/// Whether the bytes from `at` on are a number.
fn number_at(bytes: &[u8], at: usize, Ghost(s): Ghost<Seq<char>>) -> (ok: bool)
    requires
        mirrors(bytes@, s),
        at <= bytes@.len(),
    ensures
        ok == is_number_at(s, at as int),
{
    let n: usize = bytes.len();
    let whole_end: usize = scan_digits(bytes, at, Ghost(s));
    let mut fraction_end: usize = whole_end;
    let mut digits: usize = whole_end - at;
    if whole_end < n {
        assert(bytes@[whole_end as int] as char == s[whole_end as int]);
        if bytes[whole_end] == 46u8 {
            fraction_end = scan_digits(bytes, whole_end + 1, Ghost(s));
            digits = fraction_end - at - 1;
        }
    }
    if digits == 0 {
        return false;
    }
    if fraction_end == n {
        return true;
    }
    exponent_at(bytes, fraction_end, Ghost(s))
}

/// A byte that holds an upper-case ASCII letter as its lower-case letter.
fn fold_case(b: u8) -> (folded: u8)
    requires
        b < 128,
    ensures
        folded as char == lower(b as char),
        folded < 128,
{
    if 65u8 <= b && b <= 90u8 {
        b + 32
    } else {
        b
    }
}

/// The characters that the bytes of `word` stand for.
pub(crate) open spec fn letters<const N: usize>(word: [u8; N]) -> Seq<char> {
    Seq::new(N as nat, |i: int| word[i] as char)
}

/// Whether the bytes from `at` on spell `word`, which is in lower case.
fn spells_word<const N: usize>(
    bytes: &[u8],
    at: usize,
    word: [u8; N],
    Ghost(s): Ghost<Seq<char>>,
) -> (ok: bool)
    requires
        mirrors(bytes@, s),
        is_ascii_chars(s),
        at <= bytes@.len(),
    ensures
        ok == spells(s, at as int, letters(word)),
{
    let n: usize = bytes.len();
    if n - at != N {
        return false;
    }
    let mut i: usize = 0;
    while i < N
        invariant
            mirrors(bytes@, s),
            is_ascii_chars(s),
            n == bytes@.len(),
            at + N == n,
            i <= N,
            forall|j: int| 0 <= j < i ==> lower(#[trigger] s[at + j]) == letters(word)[j],
        decreases N - i,
    {
        assert(bytes@[at + i] as char == s[at + i]);
        if fold_case(bytes[at + i]) != word[i] {
            assert(lower(s[at + i]) != letters(word)[i as int]);
            return false;
        }
        i += 1;
    }
    true
}

/// Whether `s` is a decimal number: see [`is_decimal_number`].
pub fn is_decimal_text(s: &str) -> (ok: bool)
    ensures
        ok == is_decimal_number(s@),
{
    let bytes = match ascii_bytes(s) {
        Some(b) => b,
        None => {
            proof {
                if is_decimal_number(s@) {
                    lemma_decimal_number_is_ascii(s@);
                }
            }
            return false;
        },
    };
    let n: usize = bytes.len();
    let at: usize = if n > 0 && (bytes[0] == 43u8 || bytes[0] == 45u8) {
        1
    } else {
        0
    };
    if at == n {
        return false;
    }
    if number_at(bytes, at, Ghost(s@)) {
        return true;
    }
    let inf: [u8; 3] = [105, 110, 102];
    let nan: [u8; 3] = [110, 97, 110];
    let infinity: [u8; 8] = [105, 110, 102, 105, 110, 105, 116, 121];
    assert(letters(inf) =~= seq!['i', 'n', 'f']);
    assert(letters(nan) =~= seq!['n', 'a', 'n']);
    assert(letters(infinity) =~= seq!['i', 'n', 'f', 'i', 'n', 'i', 't', 'y']);
    spells_word(bytes, at, inf, Ghost(s@)) || spells_word(bytes, at, nan, Ghost(s@))
        || spells_word(bytes, at, infinity, Ghost(s@))
}

} // verus!
