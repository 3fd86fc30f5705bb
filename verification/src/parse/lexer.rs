//! Character-level lexing: character classes, maximal runs, unsigned
//! decimal numbers and identifier words.

use vstd::prelude::*;
use vstd::string::StrSliceExecFns;

use super::{ParseError, ParseErrorKind};

verus! {

/// Blank characters that may surround tokens within a field.
pub open spec fn is_space_char(c: char) -> bool {
    c == ' ' || c == '\t'
}

/// Characters that end any token.
pub open spec fn is_break_char(c: char) -> bool {
    is_space_char(c) || c == '\n' || c == '\r'
}

/// Characters an identifier may consist of: anything but blanks and the
/// three delimiters of the record grammar.
pub open spec fn is_word_char(c: char) -> bool {
    !is_break_char(c) && c != '&' && c != '|' && c != '@'
}

/// Decimal digits.
pub open spec fn is_digit_char(c: char) -> bool {
    48 <= c as int <= 57
}

/// The numeric value of one decimal digit.
pub open spec fn digit_val(c: char) -> int {
    c as int - 48
}

/// Where the run of blanks starting at `i` ends.
pub open spec fn space_end(s: Seq<char>, i: int) -> int
    decreases s.len() - i,
{
    if i < s.len() && is_space_char(s[i]) {
        space_end(s, i + 1)
    } else {
        i
    }
}

/// Where the identifier run starting at `i` ends.
pub open spec fn word_end(s: Seq<char>, i: int) -> int
    decreases s.len() - i,
{
    if i < s.len() && is_word_char(s[i]) {
        word_end(s, i + 1)
    } else {
        i
    }
}

/// Where the digit run starting at `i` ends.
pub open spec fn digit_end(s: Seq<char>, i: int) -> int
    decreases s.len() - i,
{
    if i < s.len() && is_digit_char(s[i]) {
        digit_end(s, i + 1)
    } else {
        i
    }
}

/// A maximal run stays within the input, all its characters satisfy the
/// class, and the character after it (if any) does not.
pub proof fn lemma_space_end(s: Seq<char>, i: int)
    requires
        0 <= i <= s.len(),
    ensures
        i <= space_end(s, i) <= s.len(),
        forall|k: int| i <= k < space_end(s, i) ==> is_space_char(#[trigger] s[k]),
        space_end(s, i) < s.len() ==> !is_space_char(s[space_end(s, i)]),
    decreases s.len() - i,
{
    if i < s.len() && is_space_char(s[i]) {
        lemma_space_end(s, i + 1);
    }
}

/// As [`lemma_space_end`], for identifier runs.
pub proof fn lemma_word_end(s: Seq<char>, i: int)
    requires
        0 <= i <= s.len(),
    ensures
        i <= word_end(s, i) <= s.len(),
        forall|k: int| i <= k < word_end(s, i) ==> is_word_char(#[trigger] s[k]),
        word_end(s, i) < s.len() ==> !is_word_char(s[word_end(s, i)]),
    decreases s.len() - i,
{
    if i < s.len() && is_word_char(s[i]) {
        lemma_word_end(s, i + 1);
    }
}

/// As [`lemma_space_end`], for digit runs.
pub proof fn lemma_digit_end(s: Seq<char>, i: int)
    requires
        0 <= i <= s.len(),
    ensures
        i <= digit_end(s, i) <= s.len(),
        forall|k: int| i <= k < digit_end(s, i) ==> is_digit_char(#[trigger] s[k]),
        digit_end(s, i) < s.len() ==> !is_digit_char(s[digit_end(s, i)]),
    decreases s.len() - i,
{
    if i < s.len() && is_digit_char(s[i]) {
        lemma_digit_end(s, i + 1);
    }
}

/// The value of a digit run read as a decimal number.
pub open spec fn num_val(ds: Seq<char>) -> int
    decreases ds.len(),
{
    if ds.len() == 0 {
        0
    } else {
        num_val(ds.drop_last()) * 10 + digit_val(ds.last())
    }
}

/// A digit run's value is never negative.
pub proof fn lemma_num_val_nonneg(ds: Seq<char>)
    requires
        forall|k: int| 0 <= k < ds.len() ==> is_digit_char(#[trigger] ds[k]),
    ensures
        num_val(ds) >= 0,
    decreases ds.len(),
{
    if ds.len() > 0 {
        lemma_num_val_nonneg(ds.drop_last());
    }
}

/// Reading further digits never shrinks the value.
pub proof fn lemma_num_val_monotone(s: Seq<char>, i: int, k: int, j: int)
    requires
        0 <= i <= k <= j <= s.len(),
        forall|m: int| i <= m < j ==> is_digit_char(#[trigger] s[m]),
    ensures
        num_val(s.subrange(i, j)) >= num_val(s.subrange(i, k)),
    decreases j - k,
{
    if k < j {
        let cur = s.subrange(i, k);
        let next = s.subrange(i, k + 1);
        assert(next.drop_last() =~= cur);
        assert(forall|m: int| 0 <= m < cur.len() ==> is_digit_char(#[trigger] cur[m]));
        lemma_num_val_nonneg(cur);
        assert(num_val(next) == num_val(cur) * 10 + digit_val(s[k]));
        lemma_num_val_monotone(s, i, k + 1, j);
    }
}

/// Is this character a blank?
pub fn is_space(c: char) -> (r: bool)
    ensures
        r == is_space_char(c),
{
    c == ' ' || c == '\t'
}

/// Is this character part of an identifier?
pub fn is_word(c: char) -> (r: bool)
    ensures
        r == is_word_char(c),
{
    !(c == ' ' || c == '\t' || c == '\n' || c == '\r' || c == '&' || c == '|' || c == '@')
}

/// Is this character a decimal digit?
pub fn is_digit(c: char) -> (r: bool)
    ensures
        r == is_digit_char(c),
{
    let u = c as u32;
    48 <= u && u <= 57
}

/// Skips the blanks starting at `i`.
pub fn scan_spaces(s: &str, n: usize, i: usize) -> (j: usize)
    requires
        n == s@.len(),
        i <= n,
    ensures
        j == space_end(s@, i as int),
        i <= j <= n,
{
    let mut j = i;
    loop
        invariant
            i <= j <= n,
            n == s@.len(),
            space_end(s@, i as int) == space_end(s@, j as int),
        ensures
            i <= j <= n,
            j == space_end(s@, i as int),
        decreases n - j,
    {
        if j >= n {
            break ;
        }
        let c = s.get_char(j);
        if !is_space(c) {
            break ;
        }
        j = j + 1;
    }
    j
}

/// Scans the identifier run starting at `i`.
pub fn scan_word(s: &str, n: usize, i: usize) -> (j: usize)
    requires
        n == s@.len(),
        i <= n,
    ensures
        j == word_end(s@, i as int),
        i <= j <= n,
{
    let mut j = i;
    loop
        invariant
            i <= j <= n,
            n == s@.len(),
            word_end(s@, i as int) == word_end(s@, j as int),
        ensures
            i <= j <= n,
            j == word_end(s@, i as int),
        decreases n - j,
    {
        if j >= n {
            break ;
        }
        let c = s.get_char(j);
        if !is_word(c) {
            break ;
        }
        j = j + 1;
    }
    j
}

/// Scans the digit run starting at `i`.
pub fn scan_digits(s: &str, n: usize, i: usize) -> (j: usize)
    requires
        n == s@.len(),
        i <= n,
    ensures
        j == digit_end(s@, i as int),
        i <= j <= n,
{
    let mut j = i;
    loop
        invariant
            i <= j <= n,
            n == s@.len(),
            digit_end(s@, i as int) == digit_end(s@, j as int),
        ensures
            i <= j <= n,
            j == digit_end(s@, i as int),
        decreases n - j,
    {
        if j >= n {
            break ;
        }
        let c = s.get_char(j);
        if !is_digit(c) {
            break ;
        }
        j = j + 1;
    }
    j
}

/// An unsigned decimal number read at `i`: the maximal digit run there,
/// which must be non-empty and fit a 32-bit value.
pub open spec fn spec_number(s: Seq<char>, i: int) -> Result<(int, u32), ParseError> {
    let j = digit_end(s, i);
    if j == i {
        Err(ParseError { pos: i as usize, kind: ParseErrorKind::MalformedToken })
    } else if num_val(s.subrange(i, j)) > u32::MAX {
        Err(ParseError { pos: i as usize, kind: ParseErrorKind::MalformedToken })
    } else {
        Ok((j, num_val(s.subrange(i, j)) as u32))
    }
}

/// Reads an unsigned decimal number at `i`.
pub fn scan_number(s: &str, n: usize, i: usize) -> (r: Result<(usize, u32), ParseError>)
    requires
        n == s@.len(),
        i <= n,
    ensures
        match r {
            Ok(p) => spec_number(s@, i as int) == Ok::<(int, u32), ParseError>((p.0 as int, p.1))
                && i <= p.0 <= n,
            Err(e) => spec_number(s@, i as int) == Err::<(int, u32), ParseError>(e),
        },
{
    let j = scan_digits(s, n, i);
    proof {
        lemma_digit_end(s@, i as int);
    }
    if j == i {
        return Err(ParseError { pos: i, kind: ParseErrorKind::MalformedToken });
    }
    let mut acc: u32 = 0;
    let mut k = i;
    proof {
        assert(s@.subrange(i as int, i as int) =~= Seq::empty());
    }
    while k < j
        invariant
            i <= k <= j <= n,
            n == s@.len(),
            j == digit_end(s@, i as int),
            forall|m: int| i <= m < j ==> is_digit_char(#[trigger] s@[m]),
            acc == num_val(s@.subrange(i as int, k as int)),
            acc <= u32::MAX,
        decreases j - k,
    {
        let c = s.get_char(k);
        let d = (c as u32) - 48;
        let wide: u64 = (acc as u64) * 10 + (d as u64);
        let ghost cur = s@.subrange(i as int, k as int);
        let ghost next = s@.subrange(i as int, k as int + 1);
        proof {
            assert(next.drop_last() =~= cur);
            assert(num_val(next) == num_val(cur) * 10 + digit_val(s@[k as int]));
        }
        if wide > 0xffff_ffffu64 {
            proof {
                lemma_num_val_monotone(s@, i as int, k as int + 1, j as int);
            }
            return Err(ParseError { pos: i, kind: ParseErrorKind::MalformedToken });
        }
        acc = wide as u32;
        k = k + 1;
    }
    Ok((j, acc))
}

} // verus!
