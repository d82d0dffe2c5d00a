//! Character-level helpers: conversions between strings and character
//! vectors, scanning for a delimiter, and decimal numerals.
use vstd::prelude::*;

verus! {

/// Trusted description of `String::push` from the standard library: the
/// string afterwards holds the characters it held before, followed by `c`.
pub assume_specification[ String::push ](s: &mut String, c: char)
    ensures
        final(s)@ == old(s)@.push(c),
;

/// The characters of `s`, in order.
pub(crate) fn chars_of(s: &str) -> (chars: Vec<char>)
    ensures
        chars@ == s@,
{
    let mut chars: Vec<char> = Vec::new();
    for c in it: s.chars()
        invariant
            chars@ == it.seq().take(it.index()),
            it.seq() == s@,
    {
        chars.push(c);
    }
    chars
}

/// The string made of `chars[from..to]`.
pub(crate) fn string_of(chars: &Vec<char>, from: usize, to: usize) -> (s: String)
    requires
        from <= to <= chars.len(),
    ensures
        s@ == chars@.subrange(from as int, to as int),
{
    let mut s = String::new();
    let mut i: usize = from;
    while i < to
        invariant
            from <= i <= to <= chars.len(),
            s@ == chars@.subrange(from as int, i as int),
        decreases to - i,
    {
        s.push(chars[i]);
        i += 1;
    }
    s
}

/// Index of the first character of `s` that satisfies `stop`, or `s.len()`
/// when there is none.
pub open spec fn first_index(s: Seq<char>, stop: spec_fn(char) -> bool) -> int
    decreases s.len(),
{
    if s.len() == 0 || stop(s[0]) {
        0
    } else {
        1 + first_index(s.skip(1), stop)
    }
}

/// `first_index` is the least position at which `stop` holds.
pub proof fn lemma_first_index(s: Seq<char>, stop: spec_fn(char) -> bool)
    ensures
        0 <= first_index(s, stop) <= s.len(),
        forall|j: int| 0 <= j < first_index(s, stop) ==> !stop(#[trigger] s[j]),
        first_index(s, stop) < s.len() ==> stop(s[first_index(s, stop)]),
    decreases s.len(),
{
    if s.len() == 0 || stop(s[0]) {
    } else {
        let rest = s.skip(1);
        lemma_first_index(rest, stop);
        assert forall|j: int| 0 <= j < first_index(s, stop) implies !stop(#[trigger] s[j]) by {
            if j > 0 {
                assert(s[j] == rest[j - 1]);
            }
        }
    }
}

/// Any position that is preceded only by characters outside `stop`, and that
/// either ends `s` or holds a `stop` character, is `first_index`.
pub proof fn lemma_first_index_unique(s: Seq<char>, stop: spec_fn(char) -> bool, k: int)
    requires
        0 <= k <= s.len(),
        forall|j: int| 0 <= j < k ==> !stop(#[trigger] s[j]),
        k < s.len() ==> stop(s[k]),
    ensures
        first_index(s, stop) == k,
{
    lemma_first_index(s, stop);
}

/// Decimal digits.
pub open spec fn is_digit(c: char) -> bool {
    '0' <= c <= '9'
}

/// The value of one decimal digit.
pub open spec fn digit_value(c: char) -> nat
    recommends
        is_digit(c),
{
    (c as u32 - '0' as u32) as nat
}

/// The value of a run of decimal digits, most significant first.
pub open spec fn digits_value(s: Seq<char>) -> nat
    decreases s.len(),
{
    if s.len() == 0 {
        0
    } else {
        10 * digits_value(s.drop_last()) + digit_value(s.last())
    }
}

/// The digits of an unsigned numeral: the text itself, without one leading
/// plus sign if there is one.
pub open spec fn numeral_digits(s: Seq<char>) -> Seq<char> {
    if s.len() > 0 && s[0] == '+' {
        s.skip(1)
    } else {
        s
    }
}

/// An unsigned decimal numeral: an optional `+`, then one or more digits.
pub open spec fn is_numeral(s: Seq<char>) -> bool {
    let d = numeral_digits(s);
    d.len() > 0 && forall|i: int| 0 <= i < d.len() ==> is_digit(#[trigger] d[i])
}

/// The number a numeral denotes.
pub open spec fn numeral_value(s: Seq<char>) -> nat {
    digits_value(numeral_digits(s))
}

/// Reads an unsigned decimal numeral that must denote a number below
/// `limit`. `None` when `text` is no numeral; `Some(limit)` when it denotes
/// `limit` or more; otherwise the number itself.
pub(crate) fn parse_numeral(text: &Vec<char>, limit: u32) -> (r: Option<u32>)
    requires
        limit <= 0x0fff_ffff,
    ensures
        r is Some <==> is_numeral(text@),
        r matches Some(v) ==> v == if numeral_value(text@) < limit {
            numeral_value(text@)
        } else {
            limit as nat
        },
{
    let start: usize = if text.len() > 0 && text[0] == '+' {
        1
    } else {
        0
    };
    let ghost digits = numeral_digits(text@);
    assert(digits == text@.skip(start as int));
    if start == text.len() {
        return None;
    }
    let mut value: u32 = 0;
    let mut i: usize = start;
    while i < text.len()
        invariant
            start <= i <= text.len(),
            start < text.len(),
            limit <= 0x0fff_ffff,
            digits == numeral_digits(text@),
            digits == text@.skip(start as int),
            forall|j: int| 0 <= j < i - start ==> is_digit(#[trigger] digits[j]),
            value == if digits_value(digits.take(i - start)) < limit {
                digits_value(digits.take(i - start))
            } else {
                limit as nat
            },
        decreases text.len() - i,
    {
        let c = text[i];
        assert(c == digits[i - start]);
        if !('0' <= c && c <= '9') {
            assert(!is_digit(digits[i - start]));
            return None;
        }
        proof {
            assert(digits.take(i - start + 1).drop_last() == digits.take(i - start));
        }
        if value < limit {
            let d: u32 = c as u32 - '0' as u32;
            value = value * 10 + d;
            if value > limit {
                value = limit;
            }
        }
        i += 1;
    }
    assert(digits.take(i - start) == digits);
    Some(value)
}

/// The character of one decimal digit.
pub open spec fn digit_char(d: nat) -> char
    recommends
        d < 10,
{
    (48 + d) as u8 as char
}

/// The decimal numeral of `n`, without leading zeros.
pub open spec fn decimal(n: nat) -> Seq<char>
    decreases n,
{
    if n < 10 {
        seq![digit_char(n)]
    } else {
        decimal(n / 10).push(digit_char(n % 10))
    }
}

/// Appends the decimal numeral of `n` to `out`.
pub(crate) fn push_decimal(out: &mut String, n: usize)
    ensures
        final(out)@ == old(out)@ + decimal(n as nat),
    decreases n,
{
    if n >= 10 {
        push_decimal(out, n / 10);
    }
    let d: u8 = (n % 10) as u8;
    out.push((48u8 + d) as char);
}

} // verus!
