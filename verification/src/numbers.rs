//! Reading one line of a counts text: blank-separated unsigned numbers, of
//! which the last is a count and the others spell the outcome's label.

use vstd::prelude::*;
use vstd::string::*;
use crate::text::{decimal, push_decimal};

verus! {

/// Whether `c` separates the numbers of a line: a space, a tab, a form feed
/// or a carriage return.
pub open spec fn is_blank(c: char) -> bool {
    c == ' ' || c == '\t' || c == '\x0C' || c == '\r'
}

/// Whether `c` is a decimal digit.
pub open spec fn is_digit(c: char) -> bool {
    '0' <= c && c <= '9'
}

/// The value of the digit `c`, and zero for any other character.
pub open spec fn digit_of(c: char) -> nat {
    if is_digit(c) {
        (c as u32 - '0' as u32) as nat
    } else {
        0
    }
}

/// The number that the digits `d` write in base ten.
pub open spec fn digits_value(d: Seq<char>) -> nat
    decreases d.len(),
{
    if d.len() == 0 {
        0
    } else {
        10 * digits_value(d.drop_last()) + digit_of(d.last())
    }
}

/// Whether every character of `d` is a digit.
pub open spec fn all_digits(d: Seq<char>) -> bool {
    forall|i: int| 0 <= i < d.len() ==> is_digit(#[trigger] d[i])
}

/// The digits of a token: the token itself, without a leading plus sign.
pub open spec fn digits_of(token: Seq<char>) -> Seq<char> {
    if token.len() > 0 && token[0] == '+' {
        token.subrange(1, token.len() as int)
    } else {
        token
    }
}

/// The number a token stands for: an optional plus sign and at least one
/// digit, with a value that fits the machine word. Any other token stands
/// for nothing.
pub open spec fn number_of(token: Seq<char>) -> Option<usize> {
    let d = digits_of(token);
    if d.len() > 0 && all_digits(d) && digits_value(d) <= usize::MAX {
        Some(digits_value(d) as usize)
    } else {
        None
    }
}

/// How many characters from `from` on come before the next blank.
pub open spec fn run_len(s: Seq<char>, from: int) -> nat
    decreases s.len() - from,
{
    if from < 0 || from >= s.len() || is_blank(s[from]) {
        0
    } else {
        1 + run_len(s, from + 1)
    }
}

/// The numbers among the tokens of `s` from `from` on, in order. A token is
/// a longest run of characters that are not blank; one that is no number is
/// passed over.
pub open spec fn numbers_from(s: Seq<char>, from: int) -> Seq<usize>
    decreases s.len() - from,
{
    if from < 0 || from >= s.len() {
        Seq::empty()
    } else if is_blank(s[from]) {
        numbers_from(s, from + 1)
    } else {
        let to = from + 1 + run_len(s, from + 1);
        let rest = if to < s.len() {
            numbers_from(s, to)
        } else {
            Seq::empty()
        };
        match number_of(s.subrange(from, to)) {
            Some(v) => seq![v] + rest,
            None => rest,
        }
    }
}

/// The numbers of a line.
pub open spec fn numbers_of(line: Seq<char>) -> Seq<usize> {
    numbers_from(line, 0)
}

/// The label that a run of measured values spells: their decimal texts, one
/// after the other with nothing between.
pub open spec fn label_of(values: Seq<usize>) -> Seq<char>
    decreases values.len(),
{
    if values.len() == 0 {
        Seq::empty()
    } else {
        label_of(values.drop_last()) + decimal(values.last() as nat)
    }
}

/// The outcome a line reports: the label spelled by all its numbers but the
/// last, and the last as the count. A line with fewer than two numbers
/// reports nothing.
pub open spec fn outcome_of(line: Seq<char>) -> Option<(Seq<char>, usize)> {
    let nums = numbers_of(line);
    if nums.len() >= 2 {
        Some((label_of(nums.drop_last()), nums.last()))
    } else {
        None
    }
}

/// A prefix of a digit string never writes a larger number than the whole.
pub proof fn lemma_prefix_value(d: Seq<char>, k: int)
    requires
        0 <= k <= d.len(),
    ensures
        digits_value(d.subrange(0, k)) <= digits_value(d),
    decreases d.len(),
{
    if k == d.len() {
        assert(d.subrange(0, k) =~= d);
    } else {
        lemma_prefix_value(d.drop_last(), k);
        assert(d.drop_last().subrange(0, k) =~= d.subrange(0, k));
    }
}

/// Tells whether `c` separates the numbers of a line.
pub fn blank(c: char) -> (b: bool)
    ensures
        b == is_blank(c),
{
    c == ' ' || c == '\t' || c == '\x0C' || c == '\r'
}

/// Reads the token `line[from..to]` as a number.
pub fn parse_number(line: &Vec<char>, from: usize, to: usize) -> (r: Option<usize>)
    requires
        from < to <= line.len(),
    ensures
        r == number_of(line@.subrange(from as int, to as int)),
{
    let start: usize = if line[from] == '+' { from + 1 } else { from };
    let ghost d = line@.subrange(start as int, to as int);
    assert(d =~= digits_of(line@.subrange(from as int, to as int)));
    if start == to {
        return None;
    }
    let mut acc: usize = 0;
    let mut k: usize = start;
    while k < to
        invariant
            start <= k <= to <= line.len(),
            d == line@.subrange(start as int, to as int),
            d == digits_of(line@.subrange(from as int, to as int)),
            all_digits(d.subrange(0, k - start)),
            acc == digits_value(d.subrange(0, k - start)),
        decreases to - k,
    {
        let c = line[k];
        if !(c >= '0' && c <= '9') {
            assert(!is_digit(d[k - start]));
            return None;
        }
        let dv: usize = (c as u32 - '0' as u32) as usize;
        assert(d.subrange(0, k + 1 - start).drop_last() =~= d.subrange(0, k - start));
        assert(d.subrange(0, k + 1 - start).last() == c);
        if acc > (usize::MAX - dv) / 10 {
            proof {
                lemma_prefix_value(d, k + 1 - start);
            }
            return None;
        }
        acc = acc * 10 + dv;
        k += 1;
    }
    assert(d.subrange(0, k - start) =~= d);
    Some(acc)
}

/// Reads the numbers of a line.
pub fn line_numbers(line: &Vec<char>) -> (nums: Vec<usize>)
    ensures
        nums@ == numbers_of(line@),
{
    let mut nums: Vec<usize> = Vec::new();
    let mut i: usize = 0;
    while i < line.len()
        invariant
            i <= line.len(),
            numbers_of(line@) == nums@ + numbers_from(line@, i as int),
        decreases line.len() - i,
    {
        if blank(line[i]) {
            i += 1;
        } else {
            let mut j: usize = i + 1;
            while j < line.len() && !blank(line[j])
                invariant
                    i < j <= line.len(),
                    run_len(line@, i + 1) == (j - (i + 1)) + run_len(line@, j as int),
                decreases line.len() - j,
            {
                j += 1;
            }
            let ghost before = nums@;
            let ghost rest = numbers_from(line@, j as int);
            match parse_number(line, i, j) {
                Some(v) => {
                    nums.push(v);
                    assert(nums@ + rest =~= before + (seq![v] + rest));
                },
                None => {},
            }
            i = j;
        }
    }
    assert(nums@ + Seq::<usize>::empty() =~= nums@);
    nums
}

/// Reads the outcome that a line reports, if it reports one.
pub fn parse_line(line: &Vec<char>) -> (r: Option<(String, usize)>)
    ensures
        match r {
            Some(o) => outcome_of(line@) == Some((o.0@, o.1)),
            None => outcome_of(line@) is None,
        },
{
    let nums = line_numbers(line);
    if nums.len() < 2 {
        return None;
    }
    let mut label = String::new();
    let mut k: usize = 0;
    while k < nums.len() - 1
        invariant
            nums.len() >= 2,
            k <= nums.len() - 1,
            label@ == label_of(nums@.subrange(0, k as int)),
        decreases nums.len() - k,
    {
        assert(nums@.subrange(0, k + 1).drop_last() =~= nums@.subrange(0, k as int));
        push_decimal(&mut label, nums[k]);
        k += 1;
    }
    assert(nums@.subrange(0, k as int) =~= nums@.drop_last());
    Some((label, nums[nums.len() - 1]))
}

} // verus!
