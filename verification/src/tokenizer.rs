//! Splitting source text into lines, and lines into tokens.
use vstd::prelude::*;
use crate::text::{chars_of, first_index, lemma_first_index, lemma_first_index_unique, string_of};

verus! {

/// The characters that separate tokens: those with the Unicode property
/// `White_Space`.
pub open spec fn is_whitespace(c: char) -> bool {
    let n = c as u32;
    ||| 0x09 <= n <= 0x0d
    ||| n == 0x20
    ||| n == 0x85
    ||| n == 0xa0
    ||| n == 0x1680
    ||| 0x2000 <= n <= 0x200a
    ||| n == 0x2028
    ||| n == 0x2029
    ||| n == 0x202f
    ||| n == 0x205f
    ||| n == 0x3000
}

/// The character that ends a line.
pub open spec fn is_line_end(c: char) -> bool {
    c == '\n'
}

/// `is_whitespace` as a predicate value.
pub open spec fn whitespace() -> spec_fn(char) -> bool {
    |c: char| is_whitespace(c)
}

/// `is_line_end` as a predicate value.
pub open spec fn line_end() -> spec_fn(char) -> bool {
    |c: char| is_line_end(c)
}

/// The tokens of one line: its maximal runs of characters that are not
/// whitespace, in order.
pub open spec fn split_words(line: Seq<char>) -> Seq<Seq<char>>
    decreases line.len(),
    via split_words_decreases
{
    if line.len() == 0 {
        Seq::empty()
    } else if is_whitespace(line[0]) {
        split_words(line.skip(1))
    } else {
        let n = first_index(line, whitespace());
        seq![line.take(n)] + split_words(line.skip(n))
    }
}

#[via_fn]
proof fn split_words_decreases(line: Seq<char>) {
    lemma_first_index(line, whitespace());
}

/// The token lines of a source text. A line runs up to the next line feed or
/// to the end of the text; text that ends in a line feed has no further,
/// empty line after it.
pub open spec fn tokenize(text: Seq<char>) -> Seq<Seq<Seq<char>>>
    decreases text.len(),
    via tokenize_decreases
{
    if text.len() == 0 {
        Seq::empty()
    } else {
        let n = first_index(text, line_end());
        let rest = if n < text.len() {
            text.skip(n + 1)
        } else {
            Seq::empty()
        };
        seq![split_words(text.take(n))] + tokenize(rest)
    }
}

#[via_fn]
proof fn tokenize_decreases(text: Seq<char>) {
    lemma_first_index(text, line_end());
}

/// Every token holds at least one character and no whitespace.
pub proof fn lemma_tokens_are_solid(line: Seq<char>, k: int)
    requires
        0 <= k < split_words(line).len(),
    ensures
        split_words(line)[k].len() > 0,
        forall|j: int|
            0 <= j < split_words(line)[k].len() ==> !is_whitespace(
                #[trigger] split_words(line)[k][j],
            ),
    decreases line.len(),
{
    if line.len() == 0 {
    } else if is_whitespace(line[0]) {
        lemma_tokens_are_solid(line.skip(1), k);
    } else {
        let n = first_index(line, whitespace());
        lemma_first_index(line, whitespace());
        if k == 0 {
            assert(split_words(line)[0] == line.take(n));
        } else {
            lemma_tokens_are_solid(line.skip(n), k - 1);
            assert(split_words(line)[k] == split_words(line.skip(n))[k - 1]);
        }
    }
}

fn is_space(c: char) -> (r: bool)
    ensures
        r == is_whitespace(c),
{
    let n: u32 = c as u32;
    (0x09 <= n && n <= 0x0d) || n == 0x20 || n == 0x85 || n == 0xa0 || n == 0x1680 || (0x2000 <= n
        && n <= 0x200a) || n == 0x2028 || n == 0x2029 || n == 0x202f || n == 0x205f || n == 0x3000
}

/// The tokens of `chars[from..to]`.
fn words_between(chars: &Vec<char>, from: usize, to: usize) -> (words: Vec<String>)
    requires
        from <= to <= chars.len(),
    ensures
        words.deep_view() == split_words(chars@.subrange(from as int, to as int)),
{
    let ghost line = chars@.subrange(from as int, to as int);
    let mut words: Vec<String> = Vec::new();
    let mut i: usize = from;
    assert(line.skip(0) == line);
    assert(words.deep_view() + split_words(line) == split_words(line));
    while i < to
        invariant
            from <= i <= to <= chars.len(),
            line == chars@.subrange(from as int, to as int),
            words.deep_view() + split_words(line.skip(i - from)) == split_words(line),
        decreases to - i,
    {
        let ghost rest = line.skip(i - from);
        assert(rest[0] == chars[i as int]);
        if is_space(chars[i]) {
            assert(rest.skip(1) == line.skip(i + 1 - from));
            i += 1;
        } else {
            let start: usize = i;
            i += 1;
            while i < to && !is_space(chars[i])
                invariant
                    start < i <= to <= chars.len(),
                    forall|j: int| start <= j < i ==> !is_whitespace(#[trigger] chars[j]),
                decreases to - i,
            {
                i += 1;
            }
            let word = string_of(chars, start, i);
            proof {
                let n = i - start;
                assert forall|j: int| 0 <= j < n implies !whitespace()(#[trigger] rest[j]) by {
                    assert(rest[j] == chars[start + j]);
                }
                if n < rest.len() {
                    assert(rest[n] == chars[i as int]);
                }
                lemma_first_index_unique(rest, whitespace(), n);
                assert(rest.take(n) == word@);
                assert(rest.skip(n) == line.skip(i - from));
                assert(words.deep_view().push(word@) + split_words(rest.skip(n))
                    == words.deep_view() + split_words(rest));
            }
            let ghost before = words.deep_view();
            words.push(word);
            assert(words.deep_view() == before.push(word@));
        }
    }
    assert(line.skip(to - from).len() == 0);
    assert(words.deep_view() + Seq::<Seq<char>>::empty() == words.deep_view());
    words
}

/// Splits source text into token lines: one list of tokens for each line of
/// the text, blank lines included, each token a maximal run of characters
/// that are not whitespace.
pub fn tokenize_string(program: String) -> (lines: Vec<Vec<String>>)
    ensures
        lines.deep_view() == tokenize(program@),
{
    let chars = chars_of(program.as_str());
    let mut lines: Vec<Vec<String>> = Vec::new();
    let mut i: usize = 0;
    assert(chars@.skip(0) == chars@);
    assert(lines.deep_view() + tokenize(chars@) == tokenize(chars@));
    while i < chars.len()
        invariant
            i <= chars.len(),
            lines.deep_view() + tokenize(chars@.skip(i as int)) == tokenize(chars@),
        decreases chars.len() - i,
    {
        let ghost rest = chars@.skip(i as int);
        let start: usize = i;
        while i < chars.len() && chars[i] != '\n'
            invariant
                start <= i <= chars.len(),
                forall|j: int| start <= j < i ==> !is_line_end(#[trigger] chars[j]),
            decreases chars.len() - i,
        {
            i += 1;
        }
        let words = words_between(&chars, start, i);
        proof {
            let n = i - start;
            assert forall|j: int| 0 <= j < n implies !line_end()(#[trigger] rest[j]) by {
                assert(rest[j] == chars[start + j]);
            }
            if n < rest.len() {
                assert(rest[n] == chars[i as int]);
            }
            lemma_first_index_unique(rest, line_end(), n);
            assert(rest.take(n) == chars@.subrange(start as int, i as int));
            let after = if n < rest.len() {
                rest.skip(n + 1)
            } else {
                Seq::empty()
            };
            assert(tokenize(rest) == seq![words.deep_view()] + tokenize(after));
            assert(lines.deep_view().push(words.deep_view()) + tokenize(after)
                == lines.deep_view() + tokenize(rest));
            if i < chars.len() {
                assert(after == chars@.skip(i + 1));
            } else {
                assert(after == chars@.skip(i as int));
            }
        }
        let ghost before = lines.deep_view();
        lines.push(words);
        assert(lines.deep_view() == before.push(words.deep_view()));
        if i < chars.len() {
            i += 1;
        }
    }
    assert(chars@.skip(i as int).len() == 0);
    assert(lines.deep_view() + Seq::<Seq<Seq<char>>>::empty() == lines.deep_view());
    lines
}

} // verus!
