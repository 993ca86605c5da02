//! Lines, fields and decimal numbers in a text held as bytes.
//!
//! A VCF text is a run of lines, each ended by a newline (the last one may
//! lack it). The functions here frame such lines and read the decimal numbers
//! that decide whether a line can be handed to the record parser.

use vstd::prelude::*;
use vstd::slice::slice_subrange;

verus! {

pub const NEWLINE: u8 = 10;

pub const TAB: u8 = 9;

pub const RETURN: u8 = 13;

pub const HASH: u8 = 35;

pub const QUOTE: u8 = 34;

pub const DIGIT_ZERO: u8 = 48;

pub const DIGIT_NINE: u8 = 57;

/// Length of the first line of `s`, its newline counted. Where `s` holds no
/// newline the whole of `s` is its first line.
pub open spec fn first_line_len(s: Seq<u8>) -> nat
    decreases s.len(),
{
    if s.len() == 0 {
        0
    } else if s[0] == NEWLINE {
        1
    } else {
        1 + first_line_len(s.skip(1))
    }
}

/// The first line of `s`, with its newline.
pub open spec fn first_line(s: Seq<u8>) -> Seq<u8> {
    s.take(first_line_len(s) as int)
}

/// What follows the first line of `s`.
pub open spec fn after_first_line(s: Seq<u8>) -> Seq<u8> {
    s.skip(first_line_len(s) as int)
}

/// A first line never reaches past the text, and is empty only in an empty text.
pub proof fn lemma_first_line_len_bounds(s: Seq<u8>)
    ensures
        first_line_len(s) <= s.len(),
        s.len() > 0 ==> first_line_len(s) >= 1,
    decreases s.len(),
{
    if s.len() > 0 && s[0] != NEWLINE {
        lemma_first_line_len_bounds(s.skip(1));
    }
}

pub open spec fn is_digit(b: u8) -> bool {
    DIGIT_ZERO <= b && b <= DIGIT_NINE
}

/// Length of the longest run of decimal digits that `s` starts with.
pub open spec fn digit_run_len(s: Seq<u8>) -> nat
    decreases s.len(),
{
    if s.len() > 0 && is_digit(s[0]) {
        1 + digit_run_len(s.skip(1))
    } else {
        0
    }
}

pub open spec fn digit_value(b: u8) -> nat {
    if is_digit(b) {
        (b - DIGIT_ZERO) as nat
    } else {
        0
    }
}

/// The number that a string of decimal digits writes, leading zeros allowed.
pub open spec fn decimal_value(digits: Seq<u8>) -> nat
    decreases digits.len(),
{
    if digits.len() == 0 {
        0
    } else {
        10 * decimal_value(digits.drop_last()) + digit_value(digits.last())
    }
}

/// The number written by the digits that `s` starts with; 0 where it starts
/// with none.
pub open spec fn leading_number(s: Seq<u8>) -> nat {
    decimal_value(s.take(digit_run_len(s) as int))
}

proof fn lemma_digit_run_len_bound(s: Seq<u8>)
    ensures
        digit_run_len(s) <= s.len(),
    decreases s.len(),
{
    if s.len() > 0 && is_digit(s[0]) {
        lemma_digit_run_len_bound(s.skip(1));
    }
}

/// More digits never write a smaller number.
proof fn lemma_decimal_value_grows(digits: Seq<u8>, k: int)
    requires
        0 <= k <= digits.len(),
    ensures
        decimal_value(digits.take(k)) <= decimal_value(digits),
    decreases digits.len(),
{
    if k == digits.len() {
        assert(digits.take(k) =~= digits);
    } else {
        lemma_decimal_value_grows(digits.drop_last(), k);
        assert(digits.drop_last().take(k) =~= digits.take(k));
    }
}

/// A byte that ends a field of a record line.
pub open spec fn ends_field(b: u8) -> bool {
    b == TAB || b == RETURN || b == NEWLINE
}

/// Length of the field that `s` starts with: the bytes before the first tab,
/// carriage return or newline.
pub open spec fn field_len(s: Seq<u8>) -> nat
    decreases s.len(),
{
    if s.len() > 0 && !ends_field(s[0]) {
        1 + field_len(s.skip(1))
    } else {
        0
    }
}

/// Whether the position of a record line can be held in 64 bits.
///
/// The position is the run of digits behind the first field and its tab. A
/// line without such a run has no position and fits.
pub open spec fn position_fits(line: Seq<u8>) -> bool {
    let c = field_len(line) as int;
    c > 0 && c < line.len() && line[c] == TAB ==> leading_number(line.skip(c + 1)) <= u64::MAX
}

/// Length of the header that `s` starts with.
///
/// The header is made of the leading lines that start with `##`, and of the
/// line behind them if it starts with `#`.
pub open spec fn header_len(s: Seq<u8>) -> nat
    decreases s.len(),
{
    if s.len() == 0 || s[0] != HASH {
        0
    } else if s.len() >= 2 && s[1] == HASH {
        proof {
            lemma_first_line_len_bounds(s);
        }
        first_line_len(s) + header_len(after_first_line(s))
    } else {
        first_line_len(s)
    }
}

pub proof fn lemma_header_len_bound(s: Seq<u8>)
    ensures
        header_len(s) <= s.len(),
    decreases s.len(),
{
    lemma_first_line_len_bounds(s);
    if s.len() >= 2 && s[0] == HASH && s[1] == HASH {
        lemma_header_len_bound(after_first_line(s));
    }
}

/// Whether `s` is made of decimal digits alone.
pub open spec fn all_digits(s: Seq<u8>) -> bool {
    digit_run_len(s) == s.len()
}

/// Length of the first line of `s`.
pub fn line_len(s: &[u8]) -> (n: usize)
    ensures
        n == first_line_len(s@),
{
    let mut i: usize = 0;
    proof {
        assert(s@.skip(0) =~= s@);
    }
    while i < s.len() && s[i] != NEWLINE
        invariant
            i <= s.len(),
            first_line_len(s@) == i + first_line_len(s@.skip(i as int)),
        decreases s.len() - i,
    {
        proof {
            assert(s@.skip(i as int).skip(1) =~= s@.skip(i + 1));
        }
        i += 1;
    }
    if i < s.len() {
        i + 1
    } else {
        i
    }
}

/// Whether the number that `s` starts with is at most `bound`.
pub fn leading_number_fits(s: &[u8], bound: u64) -> (ok: bool)
    ensures
        ok == (leading_number(s@) <= bound),
{
    let mut i: usize = 0;
    let mut value: u64 = 0;
    proof {
        assert(s@.skip(0) =~= s@);
    }
    while i < s.len() && DIGIT_ZERO <= s[i] && s[i] <= DIGIT_NINE
        invariant
            i <= s.len(),
            digit_run_len(s@) == i + digit_run_len(s@.skip(i as int)),
            value == decimal_value(s@.take(i as int)),
            value <= bound,
        decreases s.len() - i,
    {
        let next: u128 = 10 * (value as u128) + ((s[i] - DIGIT_ZERO) as u128);
        proof {
            assert(s@.skip(i as int).skip(1) =~= s@.skip(i + 1));
            assert(s@.take(i + 1).drop_last() =~= s@.take(i as int));
            assert(next == decimal_value(s@.take(i + 1)));
        }
        if next > bound as u128 {
            proof {
                let run = s@.take(digit_run_len(s@) as int);
                lemma_digit_run_len_bound(s@);
                lemma_digit_run_len_bound(s@.skip(i + 1));
                lemma_decimal_value_grows(run, i + 1);
                assert(run.take(i + 1) =~= s@.take(i + 1));
            }
            return false;
        }
        value = next as u64;
        i += 1;
    }
    true
}

/// Whether the position of the record line `line` can be held in 64 bits.
pub fn position_in_range(line: &[u8]) -> (ok: bool)
    ensures
        ok == position_fits(line@),
{
    let mut c: usize = 0;
    proof {
        assert(line@.skip(0) =~= line@);
    }
    while c < line.len() && line[c] != TAB && line[c] != RETURN && line[c] != NEWLINE
        invariant
            c <= line.len(),
            field_len(line@) == c + field_len(line@.skip(c as int)),
        decreases line.len() - c,
    {
        proof {
            assert(line@.skip(c as int).skip(1) =~= line@.skip(c + 1));
        }
        c += 1;
    }
    if c > 0 && c < line.len() && line[c] == TAB {
        leading_number_fits(slice_subrange(line, c + 1, line.len()), u64::MAX)
    } else {
        true
    }
}

/// Length of the header that `text` starts with.
pub fn header_length(text: &[u8]) -> (n: usize)
    ensures
        n == header_len(text@),
{
    let mut pos: usize = 0;
    proof {
        assert(text@.skip(0) =~= text@);
    }
    while pos < text.len() && text[pos] == HASH
        invariant
            pos <= text.len(),
            header_len(text@) == pos + header_len(text@.skip(pos as int)),
        decreases text.len() - pos,
    {
        let rest = slice_subrange(text, pos, text.len());
        let n = line_len(rest);
        proof {
            lemma_first_line_len_bounds(rest@);
            assert(text@.skip(pos as int).skip(n as int) =~= text@.skip(pos + n));
        }
        if rest.len() >= 2 && rest[1] == HASH {
            pos += n;
        } else {
            return pos + n;
        }
    }
    pos
}

/// Whether `s` is made of decimal digits alone.
pub fn is_all_digits(s: &[u8]) -> (all: bool)
    ensures
        all == all_digits(s@),
{
    let mut i: usize = 0;
    proof {
        assert(s@.skip(0) =~= s@);
    }
    while i < s.len() && DIGIT_ZERO <= s[i] && s[i] <= DIGIT_NINE
        invariant
            i <= s.len(),
            digit_run_len(s@) == i + digit_run_len(s@.skip(i as int)),
        decreases s.len() - i,
    {
        proof {
            assert(s@.skip(i as int).skip(1) =~= s@.skip(i + 1));
        }
        i += 1;
    }
    i == s.len()
}

} // verus!
